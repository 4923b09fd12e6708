//! Running attempts against a device.

use vstd::prelude::*;
use crate::buffer::FramebufferInfo;
use crate::cursor_buffer::{CursorDrawing, DrawPhase, DrawRequest};
use crate::device::Device;
use crate::record::{goes_on, record_is_what_was_said, records_add_up, since, Exchange, Recorded};
use crate::element::ElementInfo;
use crate::error::DrmError;
use crate::frame_state::{built_planes, fenced, fences_add_up, FrameState};
use crate::geometry::{Size, Transform};
use crate::talk::{
    claim_talk, claimed_planes, draw_talk, drawing_after, fence_talk, later_talk_changes_no_claim,
    later_talk_changes_no_fence, test_talk, update_talk, wanted_fences, wanted_planes, with_fences,
};

verus! {

/// Makes native fences for the planes that wait for one: the device is asked once for each of them,
/// and what it made is stored.
pub fn export_fences<A, B, F, R, D: Device<A, B, F, R>>(
    device: &mut Recorded<A, B, F, R, D>,
    frame: &mut FrameState,
    supports_fencing: bool,
)
    ensures
        fenced(old(frame)@, final(frame)@),
        !supports_fencing ==> final(frame)@ == old(frame)@,
        goes_on(old(device).log(), final(device).log()),
        ({
            let wanted = wanted_fences(old(frame)@, supports_fencing);
            let talk = since(old(device).log(), final(device).log());
            &&& fence_talk(wanted, talk)
            &&& final(frame)@ == with_fences(old(frame)@, wanted, talk, wanted.len())
        }),
{
    let requests = frame.fences_to_export(supports_fencing);
    let ghost wanted = wanted_fences(frame@, supports_fencing);
    let ghost start = device.log();
    let ghost mut talk = Seq::<Exchange<A, B, F, R>>::empty();
    let mut i: usize = 0;
    proof {
        assert(requests@ =~= wanted);
        assert(device.log() =~= start + talk);
        assert forall|k: int| 0 <= k < frame@.len() implies crate::frame_state::entry_fenced(
            #[trigger] frame@[k],
            frame@[k],
        ) by {}
    }
    while i < requests.len()
        invariant
            i <= requests.len(),
            frame@.len() == old(frame)@.len(),
            fenced(old(frame)@, frame@),
            !supports_fencing ==> requests@.len() == 0,
            i == 0 ==> frame@ == old(frame)@,
            requests@ == wanted,
            forall|k: int| 0 <= k < requests@.len() ==> (#[trigger] requests@[k]).0 < frame@.len(),
            talk.len() == i,
            device.log() == start + talk,
            fence_talk(wanted.take(i as int), talk),
            frame@ == with_fences(old(frame)@, wanted, talk, i as nat),
        decreases requests.len() - i,
    {
        let (index, point) = requests[i];
        let fence = device.export_fence(point);
        let ghost before = frame@;
        assert(requests@[i as int].0 == index);
        frame.store_fence(index, fence);
        proof {
            fences_add_up(old(frame)@, before, frame@);
            let next = Exchange::<A, B, F, R>::ExportFence { point, answer: fence };
            later_talk_changes_no_fence(old(frame)@, wanted, talk, next);
            assert(start + talk.push(next) =~= (start + talk).push(next));
            let longer = talk.push(next);
            assert forall|k: int| 0 <= k < i + 1 implies (#[trigger] longer[k] matches
                Exchange::ExportFence { point, answer } && point == wanted.take(i as int + 1)[k].1) by {
                if k < i {
                    assert(longer[k] == talk[k]);
                    assert(wanted.take(i as int)[k] == wanted[k]);
                }
            }
            talk = longer;
        }
        i = i + 1;
    }
    proof {
        assert(wanted.take(i as int) =~= wanted);
        record_is_what_was_said(start, talk);
    }
}

/// The update that puts the frame on the screen, after fences were made and unused planes claimed
/// where that is needed.
pub fn prepare_update<A, B, F, R, D: Device<A, B, F, R>>(
    device: &mut Recorded<A, B, F, R, D>,
    frame: &mut FrameState,
    supports_fencing: bool,
    allow_partial_update: bool,
) -> (r: Vec<crate::frame_state::SurfacePlaneState>)
    ensures
        fenced(old(frame)@, final(frame)@),
        allow_partial_update ==> r@ == built_planes(final(frame)@, true, Seq::empty()),
        !allow_partial_update ==> exists|claimed: Seq<u32>|
            r@ == #[trigger] built_planes(final(frame)@, false, claimed),
        goes_on(old(device).log(), final(device).log()),
        update_talk(
            old(frame)@,
            final(frame)@,
            supports_fencing,
            allow_partial_update,
            since(old(device).log(), final(device).log()),
            r@,
        ),
{
    export_fences(device, frame, supports_fencing);
    let ghost start = device.log();
    let unused = frame.planes_to_claim(allow_partial_update);
    let ghost wanted = wanted_planes(frame@, allow_partial_update);
    let mut claimed: Vec<u32> = Vec::new();
    let ghost mut talk = Seq::<Exchange<A, B, F, R>>::empty();
    let mut i: usize = 0;
    proof {
        assert(unused@ =~= wanted);
        assert(device.log() =~= start + talk);
        assert(claimed@ =~= Seq::empty());
    }
    while i < unused.len()
        invariant
            i <= unused.len(),
            allow_partial_update ==> unused@.len() == 0,
            i == 0 ==> claimed@.len() == 0,
            unused@ == wanted,
            talk.len() == i,
            device.log() == start + talk,
            claim_talk(wanted.take(i as int), talk),
            claimed@ == claimed_planes(wanted, talk, i as nat),
        decreases unused.len() - i,
    {
        let handle: u32 = unused[i];
        let claim = device.claim_plane(handle);
        proof {
            let next = Exchange::<A, B, F, R>::ClaimPlane { plane: handle, answer: claim };
            later_talk_changes_no_claim(wanted, talk, next);
            assert(start + talk.push(next) =~= (start + talk).push(next));
            let longer = talk.push(next);
            assert forall|k: int| 0 <= k < i + 1 implies (#[trigger] longer[k] matches
                Exchange::ClaimPlane { plane, answer } && plane == wanted.take(i as int + 1)[k]) by {
                if k < i {
                    assert(longer[k] == talk[k]);
                    assert(wanted.take(i as int)[k] == wanted[k]);
                }
            }
            talk = longer;
        }
        if claim.is_some() {
            claimed.push(handle);
        }
        i = i + 1;
    }
    proof {
        if allow_partial_update {
            assert(claimed@ =~= Seq::empty());
        }
        assert(wanted.take(i as int) =~= wanted);
        record_is_what_was_said(start, talk);
        records_add_up(old(device).log(), start, device.log());
        reveal(update_talk);
        let all = since(old(device).log(), device.log());
        let fences = wanted_fences(old(frame)@, supports_fencing);
        assert(all.take(fences.len() as int) =~= since(old(device).log(), start));
        assert(all.skip(fences.len() as int) =~= talk);
    }
    frame.build_planes(allow_partial_update, &claimed)
}

/// Asks the device about the frame.
pub fn test_frame<A, B, F, R, D: Device<A, B, F, R>>(
    device: &mut Recorded<A, B, F, R, D>,
    frame: &mut FrameState,
    supports_fencing: bool,
    allow_partial_update: bool,
    allow_modeset: bool,
) -> (r: Result<(), DrmError>)
    ensures
        fenced(old(frame)@, final(frame)@),
        goes_on(old(device).log(), final(device).log()),
        test_talk(
            old(frame)@,
            final(frame)@,
            supports_fencing,
            allow_partial_update,
            allow_modeset,
            since(old(device).log(), final(device).log()),
            r,
        ),
{
    let planes = prepare_update(device, frame, supports_fencing, allow_partial_update);
    let ghost prepared = device.log();
    let r = device.test_state(&planes, allow_modeset);
    proof {
        reveal(test_talk);
        let next = Exchange::<A, B, F, R>::TestState {
            planes: planes@,
            allow_modeset,
            answer: r,
        };
        assert(device.log() =~= prepared + seq![next]);
        record_is_what_was_said(prepared, seq![next]);
        records_add_up(old(device).log(), prepared, device.log());
        assert(since(old(device).log(), device.log()).drop_last() =~= since(
            old(device).log(),
            prepared,
        ));
    }
    r
}

/// Draws a cursor element into a new buffer. What comes of it depends on the answers of the device
/// alone.
pub fn draw_cursor<A, B, F, R, D: Device<A, B, F, R>>(
    device: &mut Recorded<A, B, F, R, D>,
    element: ElementInfo,
    element_size: Size,
    plane_size: Size,
    transform: Transform,
    needs_framebuffer: bool,
) -> (r: Option<(u64, Option<FramebufferInfo>)>)
    ensures
        r matches Some((_, framebuffer)) ==> framebuffer.is_some() == needs_framebuffer,
        goes_on(old(device).log(), final(device).log()),
        exists|has_renderer: bool, memory_supported: bool| #[trigger]
            draw_talk(
                CursorDrawing {
                    element,
                    element_size,
                    plane_size,
                    output_transform: transform,
                    needs_framebuffer,
                    has_renderer,
                    memory_supported,
                    phase: DrawPhase::Create,
                },
                since(old(device).log(), final(device).log()),
                r,
            ),
{
    let has_renderer = device.has_cursor_renderer();
    let memory_supported = device.supports_cursor_memory(&element);
    let mut drawing = CursorDrawing::begin(
        element,
        element_size,
        plane_size,
        transform,
        needs_framebuffer,
        has_renderer,
        memory_supported,
    );
    let ghost begun = drawing;
    let ghost start = device.log();
    let ghost mut talk = Seq::<Exchange<A, B, F, R>>::empty();
    assert(device.log() =~= start + talk);
    loop
        invariant
            drawing.element == element,
            drawing.needs_framebuffer == needs_framebuffer,
            drawing.framebuffer_matches(),
            begun == (CursorDrawing {
                element,
                element_size,
                plane_size,
                output_transform: transform,
                needs_framebuffer,
                has_renderer,
                memory_supported,
                phase: DrawPhase::Create,
            }),
            start == old(device).log().push(
                Exchange::HasCursorRenderer { answer: has_renderer },
            ).push(Exchange::SupportsCursorMemory { element, answer: memory_supported }),
            device.log() == start + talk,
            drawing_after(begun, talk) == Some(drawing),
        decreases drawing.steps_left(),
    {
        let ghost before = device.log();
        match drawing.request() {
            DrawRequest::CreateBuffer { size, code, modifier } => {
                let buffer = device.create_cursor_buffer(size, code, modifier);
                drawing.created(buffer);
            },
            DrawRequest::ExportFramebuffer { buffer } => {
                let framebuffer = device.add_cursor_framebuffer(buffer);
                drawing.exported(framebuffer);
            },
            DrawRequest::CopyContent { buffer } => {
                let copied = device.copy_cursor(&element, buffer);
                drawing.copied(copied);
            },
            DrawRequest::ImportContent { from_memory } => {
                let imported = device.import_cursor(&element, from_memory);
                drawing.imported(imported);
            },
            DrawRequest::Paint { buffer, size, transform } => {
                let painted = device.paint_cursor(&element, buffer, size, transform);
                drawing.painted(painted);
            },
            DrawRequest::Finished(result) => {
                proof {
                    reveal(draw_talk);
                    let first = seq![
                        Exchange::<A, B, F, R>::HasCursorRenderer { answer: has_renderer },
                        Exchange::<A, B, F, R>::SupportsCursorMemory {
                            element,
                            answer: memory_supported,
                        },
                    ];
                    assert(device.log() =~= old(device).log() + (first + talk));
                    record_is_what_was_said(old(device).log(), first + talk);
                    assert((first + talk).skip(2) =~= talk);
                    assert(draw_talk(begun, first + talk, result));
                }
                return result;
            },
        }
        proof {
            let next = device.log().last();
            assert(before.push(next) =~= start + talk.push(next));
            assert(talk.push(next).drop_last() =~= talk);
            talk = talk.push(next);
        }
    }
}

} // verus!
