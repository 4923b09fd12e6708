//! What holds of frames on their way to the screen.

use vstd::prelude::*;
use crate::buffer::{ScanoutBuffer, Slot};
use crate::compositor::{
    after_flip, after_vblank, new_slot, CompositorView, PreparedView, PresentationMode,
};
use crate::error::{DrmError, FrameError};
use crate::frame_state::{fence_requests, fenced, state_of, unused_planes, SurfacePlaneState};
use crate::plane::PlaneState;
use crate::prepared::PreparedFrameKind;
use crate::record::Exchange;
use crate::scanout_laws::{tells_the_plane, updates_name_nothing_else, updates_name_what_is_shown};
use crate::talk::{
    claimed_planes, commit_talk, queue_talk, submit_talk, update_talk, wanted_fences,
    wanted_planes,
};

verus! {

/// Whether a frame changes anything: it names all planes, or some plane is not left as it is.
pub open spec fn changes_something(prepared: PreparedView) -> bool {
    prepared.kind == PreparedFrameKind::Full || exists|i: int|
        0 <= i < prepared.frame.len() && !(#[trigger] prepared.frame[i]).1.skip
}

/// Whether something is put on the screen.
pub open spec fn is_sent_to_screen<A, B, F, R>(exchange: Exchange<A, B, F, R>) -> bool {
    exchange is Commit || exchange is PageFlip
}

/// A frame is empty exactly if it changes nothing.
pub proof fn empty_frames_change_nothing(prepared: PreparedView)
    ensures
        prepared.is_empty() == !changes_something(prepared),
{
}

/// A frame that is queued comes on the screen, with its user data: at once where no other is on its
/// way, and otherwise it waits for its turn. Frames that change nothing are refused, and so is every
/// frame while the device may not be used; then the screen stays as it is.
pub proof fn queued_frames_get_their_turn<A, B, F, R, U>(
    before: CompositorView<U>,
    after: CompositorView<U>,
    user_data: U,
    talk: Seq<Exchange<A, B, F, R>>,
    failed: Option<FrameError<A, B, F>>,
)
    requires
        queue_talk(before, after, user_data, talk, failed),
    ensures
        talk.len() > 0 && talk[0] is IsActive,
        !talk[0]->IsActive_answer ==> talk.len() == 1 && after == before && failed == Some(
            FrameError::<A, B, F>::DrmError(DrmError::DeviceInactive),
        ),
        failed is None ==> before.next is Some && changes_something(before.next->0),
        talk[0]->IsActive_answer && !(before.next is Some && changes_something(before.next->0))
            ==> failed == Some(FrameError::<A, B, F>::EmptyFrame),
        after.current == before.current,
        talk[0]->IsActive_answer ==> after.next is None,
        failed is Some ==> after.pending == before.pending,
        failed is None && before.pending is Some ==> after.queued == Some(
            (before.next->0, user_data),
        ) && after.pending == before.pending && forall|i: int|
            0 <= i < talk.len() ==> !is_sent_to_screen(#[trigger] talk[i]),
        failed is None && before.pending is None ==> after.queued is None && is_sent_to_screen(
            talk.last(),
        ) && (after.pending matches Some(pending) && pending.1 == user_data && fenced(
            before.next->0.frame,
            pending.0,
        )),
{
    reveal(queue_talk);
    if talk[0]->IsActive_answer && before.next is Some {
        let prepared = before.next->0;
        empty_frames_change_nothing(prepared);
        if !prepared.is_empty() {
            let slot = new_slot(prepared.frame, before.core.primary.handle);
            let at = 1 + crate::talk::slot_talk_len(slot);
            if before.pending is Some {
                assert forall|i: int| 0 <= i < talk.len() implies !is_sent_to_screen(
                    #[trigger] talk[i],
                ) by {
                    if i == 1 {
                        assert(talk.subrange(1, at)[0] == talk[1]);
                    }
                }
            } else {
                let queued = CompositorView {
                    next: None,
                    queued: Some((prepared, user_data)),
                    ..before
                };
                submitted_frames_are_on_their_way(queued, after, talk.skip(at), failed);
                assert(talk.skip(at).last() == talk.last());
            }
        }
    }
}

/// A frame that is submitted is on its way if the device takes it, and otherwise nothing on the screen
/// changes. It goes out as a modeset if one is due, and else as a flip, which tears only where that is
/// asked for; either way an event announces it.
pub proof fn submitted_frames_are_on_their_way<A, B, F, R, U>(
    before: CompositorView<U>,
    after: CompositorView<U>,
    talk: Seq<Exchange<A, B, F, R>>,
    failed: Option<FrameError<A, B, F>>,
)
    requires
        submit_talk(before, after, talk, failed),
    ensures
        before.queued is Some,
        talk.len() >= 2,
        talk[0] is CommitPending,
        after.queued is None,
        after.current == before.current,
        after.next == before.next,
        is_sent_to_screen(talk.last()),
        talk[0]->CommitPending_answer ==> talk.last() is Commit && talk.last()->Commit_event,
        !talk[0]->CommitPending_answer ==> talk.last() is PageFlip && talk.last()->PageFlip_event
            && talk.last()->PageFlip_async_flip == (before.presentation_mode
            == PresentationMode::Async),
        failed is None ==> (after.pending matches Some(pending) && pending.1 == (before.queued->0).1
            && fenced((before.queued->0).0.frame, pending.0)),
        failed is Some ==> after.pending == before.pending,
        failed is Some <==> (if talk[0]->CommitPending_answer {
            talk.last()->Commit_answer is Err
        } else {
            talk.last()->PageFlip_answer is Err
        }),
{
    reveal(submit_talk);
}

/// A frame that is committed is shown at once if the device takes it, in place of all others; it is
/// sent whole. If it is refused nothing on the screen changes.
pub proof fn committed_frames_are_shown<A, B, F, R, U>(
    before: CompositorView<U>,
    after: CompositorView<U>,
    talk: Seq<Exchange<A, B, F, R>>,
    failed: Option<FrameError<A, B, F>>,
)
    requires
        commit_talk(before, after, talk, failed),
    ensures
        talk.len() > 0 && talk[0] is IsActive,
        !talk[0]->IsActive_answer ==> after == before && failed is Some,
        failed is None ==> before.next is Some && changes_something(before.next->0) && after.next
            is None && after.pending is None && after.queued is None && fenced(
            before.next->0.frame,
            after.current,
        ) && talk.last() is Commit && talk.last()->Commit_answer is Ok && !talk.last()->Commit_event,
        failed is Some ==> after.current == before.current && after.pending == before.pending
            && after.queued == before.queued,
        talk[0]->IsActive_answer && !(before.next is Some && changes_something(before.next->0))
            ==> failed == Some(FrameError::<A, B, F>::EmptyFrame),
{
    reveal(commit_talk);
    if talk[0]->IsActive_answer && before.next is Some {
        empty_frames_change_nothing(before.next->0);
        if !before.next->0.is_empty() {
            let prepared = before.next->0;
            let slot = new_slot(prepared.frame, before.core.primary.handle);
            let at = 1 + crate::talk::slot_talk_len(slot);
            assert(talk.skip(at).last() == talk.last());
        }
    }
}

/// What is sent for a frame is the frame: each plane in use is named with what is on it, in a partial
/// update each that changes, in a full one each further one that could be claimed, and no other.
pub proof fn updates_are_of_the_frame<A, B, F, R>(
    before: Seq<(u32, PlaneState)>,
    after: Seq<(u32, PlaneState)>,
    supports_fencing: bool,
    partial: bool,
    talk: Seq<Exchange<A, B, F, R>>,
    planes: Seq<SurfacePlaneState>,
    i: int,
    k: int,
)
    requires
        update_talk(before, after, supports_fencing, partial, talk, planes),
    ensures
        0 <= i < after.len() && (after[i].1.config is Some || (partial && !after[i].1.skip))
            ==> exists|j: int|
            0 <= j < planes.len() && tells_the_plane(#[trigger] planes[j], after[i]),
        0 <= k < planes.len() ==> exists|j: int|
            0 <= j < after.len() && tells_the_plane(planes[k], #[trigger] after[j]),
        partial && !supports_fencing ==> talk.len() == 0,
{
    reveal(update_talk);
    let fences = wanted_fences(before, supports_fencing);
    let unused = wanted_planes(after, partial);
    let claims = talk.skip(fences.len() as int);
    let claimed = claimed_planes(unused, claims, unused.len());
    if 0 <= i < after.len() && (after[i].1.config is Some || (partial && !after[i].1.skip)) {
        updates_name_what_is_shown(after, partial, claimed, i);
    }
    if 0 <= k < planes.len() {
        updates_name_nothing_else(after, partial, claimed, k);
        let j = choose|j: int|
            0 <= j < after.len() && tells_the_plane(planes[k], #[trigger] after[j]) && (
            after[j].1.config is Some || (partial && !after[j].1.skip) || (!partial
                && claimed.contains(after[j].0)));
        assert(tells_the_plane(planes[k], after[j]));
    }
}

/// A fence is asked for exactly for each plane that changes, has a point to wait for and no fence yet.
pub proof fn fences_are_asked_for_where_they_are_missing(
    frame: Seq<(u32, PlaneState)>,
    i: int,
    k: int,
)
    requires
        frame.len() <= usize::MAX,
    ensures
        0 <= i < frame.len() && !frame[i].1.skip && (frame[i].1.config matches Some(config) && (
        config.sync matches Some(sync) && sync.fence is None)) ==> fence_requests(frame).contains(
            (i as usize, frame[i].1.config->0.sync->0.point),
        ),
        0 <= k < fence_requests(frame).len() ==> ({
            let (at, point) = fence_requests(frame)[k];
            at < frame.len() && !frame[at as int].1.skip && (
            frame[at as int].1.config matches Some(config) && (config.sync matches Some(sync)
                && sync.fence is None && sync.point == point))
        }),
    decreases frame.len(),
{
    if frame.len() > 0 {
        let front = frame.drop_last();
        let before = fence_requests(front);
        let all = fence_requests(frame);
        fences_are_asked_for_where_they_are_missing(front, i, k);
        if 0 <= i < front.len() {
            assert(front[i] == frame[i]);
            let wanted = (i as usize, frame[i].1.config->0.sync->0.point);
            if before.contains(wanted) {
                let j = choose|j: int| 0 <= j < before.len() && before[j] == wanted;
                assert(all[j] == wanted);
            }
        } else if i == front.len() && all.len() > before.len() {
            assert(all[before.len() as int] == all.last());
        }
        if 0 <= k < before.len() {
            assert(all[k] == before[k]);
            let at = before[k].0 as int;
            assert(front[at] == frame[at]);
        }
    }
}

/// A full update claims exactly the planes without content.
pub proof fn unused_planes_are_claimed(frame: Seq<(u32, PlaneState)>, i: int, k: int)
    ensures
        0 <= i < frame.len() && frame[i].1.config is None ==> unused_planes(frame).contains(
            frame[i].0,
        ),
        0 <= k < unused_planes(frame).len() ==> exists|j: int|
            0 <= j < frame.len() && (#[trigger] frame[j]).0 == unused_planes(frame)[k]
                && frame[j].1.config is None,
    decreases frame.len(),
{
    if frame.len() > 0 {
        let front = frame.drop_last();
        let before = unused_planes(front);
        let all = unused_planes(frame);
        unused_planes_are_claimed(front, i, k);
        if 0 <= i < front.len() {
            assert(front[i] == frame[i]);
            if before.contains(frame[i].0) {
                let j = choose|j: int| 0 <= j < before.len() && before[j] == frame[i].0;
                assert(all[j] == frame[i].0);
            }
        } else if i == front.len() && all.len() > before.len() {
            assert(all[before.len() as int] == all.last());
        }
        if 0 <= k < before.len() {
            assert(all[k] == before[k]);
            let j = choose|j: int|
                0 <= j < front.len() && (#[trigger] front[j]).0 == before[k]
                    && front[j].1.config is None;
            assert(frame[j] == front[j]);
        } else if k == before.len() && k < all.len() {
            assert(frame[frame.len() - 1].0 == all[k]);
        }
    }
}

/// The buffer of the swapchain counts as submitted exactly if the frame shows it anew.
pub proof fn new_buffers_count_as_submitted(frame: Seq<(u32, PlaneState)>, primary: u32, slot: Slot)
    ensures
        new_slot(frame, primary) == Some(slot) <==> (state_of(frame, primary) matches Some(state)
            && !state.skip && (state.config matches Some(config) && config.buffer.buffer
            == ScanoutBuffer::Swapchain(slot))),
{
}

/// A frame that the device calls invalid keeps its element off the primary plane from now on; any
/// other refusal is forgotten. A flip that is taken ends a reset only if it named all planes.
pub proof fn invalid_frames_are_remembered<U>(
    c: CompositorView<U>,
    prepared: PreparedView,
    id: u64,
    os_error: Option<i32>,
    i: int,
)
    requires
        c.core.states.contains_key(id),
        state_of(prepared.frame, c.core.primary.handle) matches Some(state) && (
        state.element_state matches Some(of) && of.id == id),
        0 <= i < c.core.states[id].instances.len(),
    ensures
        after_flip(
            c,
            prepared,
            Err(DrmError::Access { invalid_input: true, raw_os_error: os_error }),
        ).core.states[id].instances[i].failed_planes.primary,
        after_flip(
            c,
            prepared,
            Err(DrmError::Access { invalid_input: false, raw_os_error: os_error }),
        ) == c,
        after_flip(c, prepared, Err(DrmError::DeviceInactive)) == c,
        after_flip(c, prepared, Ok(())).core == c.core,
        after_flip(c, prepared, Ok(())).reset_pending == (c.reset_pending && prepared.kind
            != PreparedFrameKind::Full),
{
}

/// The frame on its way is the one that is shown after the vblank, and the one that the next frame
/// follows until then; nothing else changes by it.
pub proof fn frames_follow_each_other<U>(c: CompositorView<U>)
    ensures
        c.pending matches Some(pending) ==> c.previous() == pending.0 && after_vblank(c).current
            == pending.0 && after_vblank(c).pending is None && after_vblank(c).previous() == pending.0,
        c.pending is None ==> c.previous() == c.current && after_vblank(c) == c,
        after_vblank(c).queued == c.queued,
        after_vblank(c).next == c.next,
        after_vblank(c).core == c.core,
{
}

} // verus!
