//! What holds of what is drawn: into cursor buffers, and into the buffers of the swapchain.

use vstd::prelude::*;
use crate::buffer::{CachedDrmFramebuffer, DrmFramebuffer, FramebufferInfo, ScanoutBuffer, Slot};
use crate::core_state::CoreView;
use crate::cursor_buffer::{
    copied, copied_rows_are_in_place, copy_plan_spec, copyable_spec, CursorDrawing, DrawPhase,
    PixelSource,
};
use crate::element::ElementInfo;
use crate::error::{FrameError, RenderFrameError};
use crate::float::{encodes, encoding_is_unique, F64};
use crate::frame_build::FrameView;
use crate::frame_finish::{damage_report_spec, rendered_state, DamageReport};
use crate::frame_state::{set_state_changes_one_plane, state_of, with_state};
use crate::geometry::{Size, Transform};
use crate::device::RenderFailure;
use crate::plane::PlaneState;
use crate::record::Exchange;
use crate::talk::{acquire_talk, draw_talk, drawing_after, mode_talk, render_talk};

verus! {

// ---------------------------------------------------------------------------------------------
// Copying
// ---------------------------------------------------------------------------------------------

/// A cursor is copied if and only if it has the format of the cursor buffer and all its pixels are
/// there; then each pixel is found in its row and column, whatever the length of the rows, and what
/// lies beside the rows stays as it was.
pub proof fn copied_cursors_are_in_place(
    source: PixelSource,
    pixels: Seq<u8>,
    bo: Seq<u8>,
    bo_format: u32,
    bo_stride: u32,
    row: int,
    column: int,
)
    requires
        pixels.len() == source.len,
        source.stride * source.rows <= usize::MAX,
        source.rows * bo_stride <= bo.len(),
        source.stride <= bo_stride,
        0 <= row < source.rows,
        0 <= column < bo_stride,
    ensures
        copy_plan_spec(source, bo_format, bo_stride) is Some <==> source.format == Some(bo_format)
            && source.offset + source.stride * source.rows <= pixels.len(),
        copy_plan_spec(source, bo_format, bo_stride) matches Some(plan) ==> {
            let after = copied(pixels, bo, bo_stride, plan);
            &&& after.len() == bo.len()
            &&& after[row * bo_stride + column] == (if column < source.stride {
                pixels[source.offset + row * source.stride + column]
            } else {
                bo[row * bo_stride + column]
            })
        },
{
    if let Some(plan) = copy_plan_spec(source, bo_format, bo_stride) {
        let stride = source.stride as int;
        let rows = source.rows as int;
        let part = pixels.subrange(source.offset as int, source.offset + stride * rows);
        assert(rows * stride == stride * rows) by (nonlinear_arith);
        assert(0 <= row * stride && row * stride + stride <= rows * stride) by (nonlinear_arith)
            requires
                0 <= row < rows,
                stride >= 0,
        ;
        assert(0 <= row * bo_stride && row * bo_stride + bo_stride <= rows * bo_stride)
            by (nonlinear_arith)
            requires
                0 <= row < rows,
                bo_stride >= 0,
        ;
        if source.stride == bo_stride {
            assert(copied(pixels, bo, bo_stride, plan)[row * bo_stride + column] == part[row
                * bo_stride + column]);
        } else {
            copied_rows_are_in_place(
                part,
                bo,
                stride,
                bo_stride as int,
                source.rows as nat,
                row,
                column,
            );
            if column < stride {
                assert(part[row * stride + column] == pixels[source.offset + (row * stride
                    + column)]);
            }
        }
    }
}

/// The content of a cursor is copied only as it is: from its upper left corner, at its own size, and
/// neither turned nor mirrored.
pub proof fn cursors_are_copied_as_they_are(
    element: ElementInfo,
    size: Size,
    output: Transform,
    width: F64,
    height: F64,
)
    requires
        encodes(width.bits, size.w as int),
        encodes(height.bits, size.h as int),
    ensures
        copyable_spec(element, size, output) <==> element.storage is Some && element.transform
            == Transform::Normal && output == Transform::Normal && element.src.x.bits % (1u64 << 63)
            == 0 && element.src.y.bits % (1u64 << 63) == 0 && size.w != 0 && size.h != 0
            && element.src.w.same_spec(width) && element.src.h.same_spec(height),
{
    assert(1u64 << 63 == 0x8000_0000_0000_0000u64) by (bit_vector);
    encoding_is_unique(width.bits, F64::from_i32_spec(size.w).bits, size.w as int);
    encoding_is_unique(height.bits, F64::from_i32_spec(size.h).bits, size.h as int);
}

// ---------------------------------------------------------------------------------------------
// Drawing
// ---------------------------------------------------------------------------------------------

/// Whether a buffer for a cursor was made: of the size of the plane, with alpha, row by row.
pub open spec fn made_for<A, B, F, R>(
    drawing: CursorDrawing,
    exchange: Exchange<A, B, F, R>,
    buffer: u64,
) -> bool {
    exchange matches Exchange::CreateCursorBuffer { size, code, modifier, answer } && size
        == drawing.plane_size && code == 0x3432_5241 && modifier == 0 && answer == Some(buffer)
}

/// Whether the content of a cursor got into a buffer: it was copied, or drawn as the output is turned.
pub open spec fn filled_by<A, B, F, R>(
    drawing: CursorDrawing,
    exchange: Exchange<A, B, F, R>,
    buffer: u64,
) -> bool {
    ||| exchange == (Exchange::<A, B, F, R>::CopyCursor {
        element: drawing.element,
        buffer,
        answer: true,
    })
    ||| exchange == (Exchange::<A, B, F, R>::PaintCursor {
        element: drawing.element,
        buffer,
        size: drawing.plane_size,
        transform: drawing.output_transform,
        answer: true,
    })
}

spec fn prepared_by<A, B, F, R>(
    drawing: CursorDrawing,
    talk: Seq<Exchange<A, B, F, R>>,
    buffer: u64,
    framebuffer: Option<FramebufferInfo>,
) -> bool {
    &&& talk.len() >= 1
    &&& made_for(drawing, talk[0], buffer)
    &&& framebuffer is Some == drawing.needs_framebuffer
    &&& framebuffer is Some ==> talk.len() >= 2 && talk[1] == (
    Exchange::<A, B, F, R>::AddCursorFramebuffer { buffer, answer: framebuffer })
}

spec fn could_be_drawn(drawing: CursorDrawing) -> bool {
    drawing.has_renderer && (drawing.element.storage matches Some(storage) && (
    storage is Memory ==> drawing.memory_supported))
}

spec fn is_refusal<A, B, F, R>(exchange: Exchange<A, B, F, R>) -> bool {
    match exchange {
        Exchange::CreateCursorBuffer { answer, .. } => answer is None,
        Exchange::AddCursorFramebuffer { answer, .. } => answer is None,
        Exchange::CopyCursor { answer, .. } => !answer,
        Exchange::ImportCursor { answer, .. } => !answer,
        Exchange::PaintCursor { answer, .. } => !answer,
        _ => false,
    }
}

spec fn on_course<A, B, F, R>(
    drawing: CursorDrawing,
    talk: Seq<Exchange<A, B, F, R>>,
    phase: DrawPhase,
) -> bool {
    let copyable = copyable_spec(drawing.element, drawing.element_size, drawing.output_transform);
    match phase {
        DrawPhase::Create => talk.len() == 0,
        DrawPhase::Export { buffer } => talk.len() == 1 && made_for(drawing, talk[0], buffer)
            && drawing.needs_framebuffer,
        DrawPhase::Copy { buffer, framebuffer } => prepared_by(drawing, talk, buffer, framebuffer)
            && copyable,
        DrawPhase::Import { buffer, framebuffer, from_memory } => prepared_by(
            drawing,
            talk,
            buffer,
            framebuffer,
        ) && could_be_drawn(drawing) && (!copyable || talk.last() == (
        Exchange::<A, B, F, R>::CopyCursor { element: drawing.element, buffer, answer: false }))
            && from_memory == (drawing.element.storage->0 is Memory),
        DrawPhase::Paint { buffer, framebuffer } => prepared_by(drawing, talk, buffer, framebuffer)
            && could_be_drawn(drawing) && (talk.last() == (Exchange::<A, B, F, R>::ImportCursor {
            element: drawing.element,
            from_memory: drawing.element.storage->0 is Memory,
            answer: true,
        })) && (!copyable || (talk.len() >= 2 && talk[talk.len() - 2] == (
        Exchange::<A, B, F, R>::CopyCursor { element: drawing.element, buffer, answer: false }))),
        DrawPhase::Done(Some((buffer, framebuffer))) => talk.len() >= 2 && prepared_by(
            drawing,
            talk,
            buffer,
            framebuffer,
        ) && filled_by(drawing, talk.last(), buffer) && (talk.last() is CopyCursor ==> copyable)
            && (talk.last() is PaintCursor ==> talk[talk.len() - 2] == (
        Exchange::<A, B, F, R>::ImportCursor {
            element: drawing.element,
            from_memory: drawing.element.storage->0 is Memory,
            answer: true,
        }) && (!copyable || (talk.len() >= 3 && talk[talk.len() - 3] == (
        Exchange::<A, B, F, R>::CopyCursor { element: drawing.element, buffer, answer: false })))),
        DrawPhase::Done(None) => talk.len() >= 1 && (is_refusal(talk.last()) || !copyable) && (
        could_be_drawn(drawing) || copyable ==> is_refusal(talk.last())) && (talk.last() is CopyCursor
            ==> !could_be_drawn(drawing)),
    }
}

proof fn lemma_on_course<A, B, F, R>(drawing: CursorDrawing, talk: Seq<Exchange<A, B, F, R>>)
    requires
        drawing.phase is Create,
        drawing_after(drawing, talk) is Some,
    ensures
        ({
            let after = drawing_after(drawing, talk)->0;
            &&& after == (CursorDrawing { phase: after.phase, ..drawing })
            &&& on_course(drawing, talk, after.phase)
        }),
    decreases talk.len(),
{
    if talk.len() > 0 {
        lemma_on_course(drawing, talk.drop_last());
    }
}

/// A cursor that was drawn is in a buffer that was made for it, with its own framebuffer if it needs
/// one, and its content was the last thing that got there; it is drawn only where copying is out of the
/// question or failed.
pub proof fn drawn_cursors_are_in_their_buffer<A, B, F, R>(
    drawing: CursorDrawing,
    talk: Seq<Exchange<A, B, F, R>>,
    buffer: u64,
    framebuffer: Option<FramebufferInfo>,
)
    requires
        drawing.phase is Create,
        draw_talk(drawing, talk, Some((buffer, framebuffer))),
    ensures
        talk.len() >= 4,
        made_for(drawing, talk[2], buffer),
        filled_by(drawing, talk.last(), buffer),
        framebuffer is Some == drawing.needs_framebuffer,
        framebuffer is Some ==> talk[3] == (Exchange::<A, B, F, R>::AddCursorFramebuffer {
            buffer,
            answer: framebuffer,
        }),
        talk.last() is CopyCursor ==> drawing.element.transform == Transform::Normal
            && drawing.output_transform == Transform::Normal,
        talk.last() is PaintCursor ==> talk[talk.len() - 2] == (
        Exchange::<A, B, F, R>::ImportCursor {
            element: drawing.element,
            from_memory: drawing.element.storage->0 is Memory,
            answer: true,
        }) && (!copyable_spec(drawing.element, drawing.element_size, drawing.output_transform)
            || talk[talk.len() - 3] == (Exchange::<A, B, F, R>::CopyCursor {
            element: drawing.element,
            buffer,
            answer: false,
        })),
{
    reveal(draw_talk);
    let rest = talk.skip(2);
    lemma_on_course(drawing, rest);
    assert(rest[0] == talk[2]);
    assert(rest.last() == talk.last());
    if framebuffer is Some {
        assert(rest[1] == talk[3]);
    }
}

/// A cursor is given up only after a refusal, or where its content can neither be copied nor drawn; and
/// a failed copy is a reason only where it can not be drawn.
pub proof fn cursors_are_given_up_for_a_reason<A, B, F, R>(
    drawing: CursorDrawing,
    talk: Seq<Exchange<A, B, F, R>>,
)
    requires
        drawing.phase is Create,
        draw_talk(drawing, talk, None),
    ensures
        talk.len() >= 3,
        ({
            let can_draw = drawing.has_renderer && (drawing.element.storage matches Some(storage) && (
            storage is Memory ==> drawing.memory_supported));
            let refused = match talk.last() {
                Exchange::CreateCursorBuffer { answer, .. } => answer is None,
                Exchange::AddCursorFramebuffer { answer, .. } => answer is None,
                Exchange::CopyCursor { answer, .. } => !answer,
                Exchange::ImportCursor { answer, .. } => !answer,
                Exchange::PaintCursor { answer, .. } => !answer,
                _ => false,
            };
            &&& can_draw || copyable_spec(
                drawing.element,
                drawing.element_size,
                drawing.output_transform,
            ) ==> refused
            &&& talk.last() is CopyCursor ==> !can_draw
        }),
{
    reveal(draw_talk);
    lemma_on_course(drawing, talk.skip(2));
    assert(talk.skip(2).last() == talk.last());
}

// ---------------------------------------------------------------------------------------------
// Buffers of the swapchain
// ---------------------------------------------------------------------------------------------

/// A buffer is taken out of the swapchain together with its own size and framebuffer: the one that was
/// kept with it, or a new one that is made for it and kept.
pub proof fn acquired_buffers_have_their_framebuffer<A, B, F, R>(
    opaque: bool,
    talk: Seq<Exchange<A, B, F, R>>,
    slot: Slot,
    size: Size,
    fb: CachedDrmFramebuffer,
)
    requires
        acquire_talk(
            opaque,
            talk,
            Ok::<(Slot, Size, CachedDrmFramebuffer), FrameError<A, B, F>>((slot, size, fb)),
        ),
    ensures
        talk.len() == 3 || talk.len() == 5,
        talk[0] == (Exchange::<A, B, F, R>::Acquire { answer: Ok(Some(slot)) }),
        talk[1] == (Exchange::<A, B, F, R>::ExportSlot { slot, answer: Ok(size) }),
        talk.len() == 3 ==> talk[2] == (Exchange::<A, B, F, R>::SlotFramebuffer {
            slot,
            answer: Some(fb),
        }),
        talk.len() == 5 ==> {
            &&& talk[2] == (Exchange::<A, B, F, R>::SlotFramebuffer { slot, answer: None })
            &&& fb.framebuffer matches DrmFramebuffer::Exporter(info) && talk[3] == (
            Exchange::<A, B, F, R>::AddSlotFramebuffer {
                slot,
                use_opaque: opaque,
                answer: Ok(Some(info)),
            })
            &&& talk[4] == (Exchange::<A, B, F, R>::KeepSlotFramebuffer { slot, fb })
        },
{
    reveal(acquire_talk);
    let rest = talk.skip(1);
    assert(rest[0] == talk[1]);
    assert(rest[1] == talk[2]);
    let made = rest.skip(2);
    if made.len() >= 2 {
        assert(made[0] == talk[3]);
        assert(made[1] == talk[4]);
    }
}

/// The first failure ends the search for a buffer, and is what comes out.
pub proof fn buffers_are_missing_for_a_reason<A, B, F, R>(
    opaque: bool,
    talk: Seq<Exchange<A, B, F, R>>,
    error: FrameError<A, B, F>,
)
    requires
        acquire_talk(
            opaque,
            talk,
            Err::<(Slot, Size, CachedDrmFramebuffer), FrameError<A, B, F>>(error),
        ),
    ensures
        talk.len() >= 1,
        match talk.last() {
            Exchange::Acquire { answer } => match answer {
                Err(e) => error == FrameError::<A, B, F>::Allocator(e),
                Ok(None) => error == FrameError::<A, B, F>::NoFreeSlotsError,
                Ok(Some(_)) => false,
            },
            Exchange::ExportSlot { slot, answer } => answer is Err && error
                == FrameError::<A, B, F>::AsDmabufError(answer->Err_0),
            Exchange::AddSlotFramebuffer { slot, use_opaque, answer } => match answer {
                Err(e) => error == FrameError::<A, B, F>::FramebufferExport(e),
                Ok(None) => error == FrameError::<A, B, F>::NoFramebuffer,
                Ok(Some(_)) => false,
            },
            _ => false,
        },
{
    reveal(acquire_talk);
    let rest = talk.skip(1);
    if talk.len() > 1 {
        assert(rest[0] == talk[1]);
        assert(rest.last() == talk.last());
        if talk.len() > 2 {
            assert(rest[1] == talk[2]);
            let made = rest.skip(2);
            if made.len() > 0 {
                assert(made[0] == talk[3]);
                assert(made.last() == talk.last());
            }
        }
    }
}

/// What the primary plane does not show is not rendered: with an element on it, or nothing, textures
/// are dropped and that is all.
pub proof fn nothing_is_rendered_for_an_element<A, B, F, R>(
    before: FrameView,
    after: FrameView,
    core: CoreView,
    previous: Seq<(u32, PlaneState)>,
    ids_before: Seq<(u32, u64, u64)>,
    ids_after: Seq<(u32, u64, u64)>,
    flags: u32,
    talk: Seq<Exchange<A, B, F, R>>,
    result: Result<bool, RenderFrameError<A, B, F, R>>,
)
    requires
        render_talk(
            before,
            after,
            core,
            previous,
            ids_before,
            ids_after,
            flags,
            talk,
            result,
        ),
        !(state_of(before.frame, core.primary.handle) matches Some(state) && state.config matches Some(
            config,
        ) && config.buffer.buffer is Swapchain),
    ensures
        talk.len() == 1 && talk[0] is CleanupTextures,
        after == before,
        ids_after == ids_before,
        result is Ok && !result->Ok_0,
{
    reveal(render_talk);
}

/// The buffer on the primary plane is rendered, with exactly the elements that were left to be
/// rendered, over the clear color. Nothing of the frame changes but what became of elements and the
/// state of the primary plane, and nothing at all where rendering fails, after which no buffer counts as
/// drawn any more.
pub proof fn rendered_buffers_are_shown<A, B, F, R>(
    before: FrameView,
    after: FrameView,
    core: CoreView,
    previous: Seq<(u32, PlaneState)>,
    ids_before: Seq<(u32, u64, u64)>,
    ids_after: Seq<(u32, u64, u64)>,
    flags: u32,
    talk: Seq<Exchange<A, B, F, R>>,
    result: Result<bool, RenderFrameError<A, B, F, R>>,
    shown: Slot,
)
    requires
        render_talk(
            before,
            after,
            core,
            previous,
            ids_before,
            ids_after,
            flags,
            talk,
            result,
        ),
        state_of(before.frame, core.primary.handle) matches Some(state) && state.config matches Some(
            config,
        ) && config.buffer.buffer == ScanoutBuffer::Swapchain(shown),
    ensures
        talk.len() >= 1,
        talk[0] is ExportSlot && talk[0]->ExportSlot_slot == shown,
        talk[0]->ExportSlot_answer is Err ==> talk.len() == 1 && after == before && result is Err,
        talk[0]->ExportSlot_answer is Ok ==> {
            let at = 1 + before.overlay_elements.len() as int;
            &&& talk.len() > at
            &&& talk[at] matches Exchange::Render {
                slot,
                plane_elements,
                elements,
                visible,
                clear_color,
                debug_flags,
                answer,
            } && slot == shown && elements == before.primary_plane_elements && visible == before.visible
                && clear_color == before.clear_color && debug_flags == flags && (answer is Ok
                <==> result is Ok)
            &&& result is Ok ==> result->Ok_0
            &&& result is Err ==> after == before
            &&& talk[at]->Render_answer matches Err(RenderFailure::Render(error)) ==> talk.len() == at
                + 2 && talk[at + 1] is ResetBuffers && result == Err::<
                bool,
                RenderFrameError<A, B, F, R>,
            >(RenderFrameError::RenderFrame(error))
            &&& result is Ok ==> (forall|handle: u32|
                handle != core.primary.handle ==> state_of(after.frame, handle) == #[trigger] state_of(
                    before.frame,
                    handle,
                )) && after.primary_plane_elements == before.primary_plane_elements
                && after.overlay_elements == before.overlay_elements && after.visible
                == before.visible
        },
{
    reveal(render_talk);
    if talk[0]->ExportSlot_answer is Ok {
        let at = 1 + before.overlay_elements.len() as int;
        let rest = talk.skip(at);
        assert(rest[0] == talk[at]);
        if rest.len() > 1 {
            assert(rest[1] == talk[at + 1]);
            assert(rest.last() == talk.last());
        }
        if result is Ok {
            let primary = core.primary.handle;
            let rendered = talk[at]->Render_answer->Ok_0;
            let damage = damage_report_spec(previous, primary, rendered.has_damage);
            let reports = rest.skip(1);
            let dropped: int = if rendered.has_damage {
                0
            } else {
                1
            };
            let clips = if damage == DamageReport::Nothing {
                None
            } else {
                reports[dropped]->ReportDamage_answer
            };
            let state = rendered_state(
                state_of(before.frame, primary)->0,
                previous,
                primary,
                damage,
                clips,
                rendered.sync,
            );
            assert(after.frame == with_state(before.frame, primary, state));
            assert forall|handle: u32| handle != primary implies state_of(after.frame, handle)
                == #[trigger] state_of(before.frame, handle) by {
                set_state_changes_one_plane(before.frame, primary, state, handle);
            }
        }
    }
}

/// A mode is used by the device first, and the swapchain gets its size only if that worked; a legacy
/// cursor is taken off before.
pub proof fn modes_are_used_by_device_and_swapchain<A, B, F, R>(
    installed: bool,
    mode: u64,
    size: Size,
    talk: Seq<Exchange<A, B, F, R>>,
    failed: Option<FrameError<A, B, F>>,
)
    requires
        mode_talk(installed, mode, size, talk, failed),
    ensures
        failed is None ==> talk.len() >= 2 && talk.last() == (
        Exchange::<A, B, F, R>::ResizeSwapchain { size }) && (talk[talk.len()
            - 2] matches Exchange::UseMode { mode: used, answer } && used == mode && answer is Ok),
        failed matches Some(error) ==> talk.len() >= 1 && (talk.last() matches Exchange::UseMode {
            mode: used,
            answer,
        } && used == mode && answer is Err && error == FrameError::<A, B, F>::DrmError(
            answer->Err_0,
        )),
        installed ==> talk[0] is DisableCursor,
{
    if installed {
        assert(talk.take(1)[0] == talk[0]);
    }
}

} // verus!
