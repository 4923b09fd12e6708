//! What holds of touch points across several events.

use vstd::prelude::*;
use crate::touch::{
    after_cancel, after_change, after_down, after_frame, after_motion, after_up, frame_targets,
    is_told, live_targets, local, marker_of, owed_targets, slot_index, slot_index_is_first,
    target_of, with_slot, FrameMarker, Location, TouchSlot, TouchSlotState,
};

verus! {

/// A touch point is told relative to the origin it appeared with, wherever it moves.
pub proof fn motion_uses_the_origin_of_the_down<P: Location>(
    before: Option<TouchSlotState<P>>,
    down_marker: FrameMarker,
    target: u64,
    origin: P,
    down_location: P,
    motion_marker: FrameMarker,
    location: P,
)
    ensures
        after_motion(
            after_down(before, down_marker, Some((target, origin)), down_location),
            motion_marker,
            location,
        ).delivered == Some((target, location.minus_spec(origin))),
        after_motion(
            after_down(before, down_marker, Some((target, origin)), down_location),
            motion_marker,
            location,
        ).focus == Some((target, origin)),
{
}

/// What is recorded as delivered is what the target of the touch point was told, or nothing.
pub proof fn record_is_of_the_live_target<P: Location>(
    before: Option<TouchSlotState<P>>,
    state: TouchSlotState<P>,
    marker: FrameMarker,
    focus: Option<(u64, P)>,
    location: P,
)
    requires
        state.delivered matches Some((target, _)) ==> (state.focus matches Some((live, _)) && live
            == target),
    ensures
        after_down(before, marker, focus, location).delivered matches Some((target, _)) ==> (
        after_down(before, marker, focus, location).focus matches Some((live, _)) && live == target),
        after_motion(state, marker, location).delivered matches Some((target, _)) ==> (
        after_motion(state, marker, location).focus matches Some((live, _)) && live == target),
        after_up(state, marker).delivered is None,
        after_frame(state, marker).delivered == state.delivered,
        after_cancel(state, marker).delivered matches Some((target, _)) ==> (after_cancel(
            state,
            marker,
        ).focus matches Some((live, _)) && live == target),
{
}

/// A slot that is used again starts without what the touch point before was told, whatever became
/// of that one.
pub proof fn reused_slots_start_afresh<P: Location>(
    before: Option<TouchSlotState<P>>,
    marker: FrameMarker,
    location: P,
)
    ensures
        after_down(before, marker, None, location).delivered is None,
        after_down(before, marker, None, location).frame_pending is None,
        after_down(before, marker, None, location).focus is None,
{
}

/// Whether nobody is told of a touch point.
pub open spec fn is_silent<P>(state: TouchSlotState<P>) -> bool {
    state.focus is None && state.delivered is None && state.frame_pending is None
}

/// Nobody is told of a silent touch point, whatever happens to it, until it appears anew: frames and
/// cancellations go to the targets of the others.
pub proof fn silent_touch_points_stay_silent<P: Location>(
    slots: Seq<(TouchSlot, TouchSlotState<P>)>,
    i: int,
    marker: FrameMarker,
    location: P,
)
    requires
        0 <= i < slots.len(),
        is_silent(slots[i].1),
    ensures
        is_silent(after_motion(slots[i].1, marker, location)),
        is_silent(after_up(slots[i].1, marker)),
        is_silent(after_frame(slots[i].1, marker)),
        is_silent(after_cancel(slots[i].1, marker)),
        frame_targets(slots) == frame_targets(slots.remove(i)),
        live_targets(slots) == live_targets(slots.remove(i)),
        owed_targets(slots) == owed_targets(slots.remove(i)),
    decreases slots.len(),
{
    let front = slots.drop_last();
    if i < slots.len() - 1 {
        assert(front[i] == slots[i]);
        silent_touch_points_stay_silent(front, i, marker, location);
        assert(slots.remove(i).drop_last() =~= front.remove(i));
        assert(slots.remove(i).last() == slots.last());
    } else {
        assert(slots.remove(i) =~= front);
    }
}

/// After its end a touch point is told to nobody, but its target still gets the frame, once: then
/// nobody is told of the touch point any more.
pub proof fn ended_touch_points_get_their_frame<P: Location>(
    slots: Seq<(TouchSlot, TouchSlotState<P>)>,
    i: int,
    marker: FrameMarker,
    later: FrameMarker,
    location: P,
)
    requires
        0 <= i < slots.len(),
        slots[i].1.focus.is_some(),
        slots[i].1.current != Some(marker),
    ensures
        after_motion(after_up(slots[i].1, marker), later, location).delivered is None,
        frame_targets(slots.update(i, (slots[i].0, after_up(slots[i].1, marker)))).contains(
            (slots[i].1.focus->0).0,
        ),
        is_silent(after_frame(after_up(slots[i].1, marker), marker)),
{
    let ended = slots.update(i, (slots[i].0, after_up(slots[i].1, marker)));
    lemma_frame_reaches(ended, i, (slots[i].1.focus->0).0);
}

/// A frame reaches the target that a touch point left.
proof fn lemma_frame_reaches<P>(
    slots: Seq<(TouchSlot, TouchSlotState<P>)>,
    i: int,
    target: u64,
)
    requires
        0 <= i < slots.len(),
        !is_told(slots[i].1),
        slots[i].1.frame_pending == Some(target),
    ensures
        frame_targets(slots).contains(target),
    decreases slots.len(),
{
    let front = slots.drop_last();
    let before = frame_targets(front);
    let targets = frame_targets(slots);
    if i < slots.len() - 1 {
        assert(front[i] == slots[i]);
        lemma_frame_reaches(front, i, target);
        let k = choose|k: int| 0 <= k < before.len() && before[k] == target;
        assert(targets[k] == target);
    } else {
        assert(targets[before.len() as int] == target);
    }
}

/// A cancelled session is over: whatever touch points there were, nobody is told of them any more.
pub proof fn cancelled_touch_points_are_silent<P: Location>(
    slots: Seq<(TouchSlot, TouchSlotState<P>)>,
    marker: FrameMarker,
)
    ensures
        ({
            let after = slots.map_values(
                |entry: (TouchSlot, TouchSlotState<P>)| (entry.0, after_cancel(entry.1, marker)),
            );
            &&& forall|i: int| 0 <= i < after.len() ==> is_silent((#[trigger] after[i]).1)
            &&& frame_targets(after).len() == 0
            &&& live_targets(after).len() == 0
        }),
    decreases slots.len(),
{
    let after = slots.map_values(
        |entry: (TouchSlot, TouchSlotState<P>)| (entry.0, after_cancel(entry.1, marker)),
    );
    if slots.len() > 0 {
        let front = slots.drop_last();
        cancelled_touch_points_are_silent(front, marker);
        assert(after.drop_last() =~= front.map_values(
            |entry: (TouchSlot, TouchSlotState<P>)| (entry.0, after_cancel(entry.1, marker)),
        ));
    }
}

/// Whether a target is told of a touch point, given what is known about it.
pub open spec fn has_target<P>(state: TouchSlotState<P>, target: u64) -> bool {
    state.focus matches Some((t, _)) && t == target
}

/// Every event of a touch point is followed by a frame for its target: after it appeared, moved or
/// changed, the target of the touch point is among those that the next frame is for, unless that
/// frame was told already; and after it ended, the target that it had.
pub proof fn events_are_followed_by_a_frame<P: Location>(
    slots: Seq<(TouchSlot, TouchSlotState<P>)>,
    slot: TouchSlot,
    state: TouchSlotState<P>,
    marker: FrameMarker,
    location: P,
    target: u64,
    origin: P,
)
    requires
        state.current != Some(marker),
    ensures
        frame_targets(
            with_slot(slots, slot, after_down(Some(state), marker, Some((target, origin)), location)),
        ).contains(target),
        frame_targets(
            with_slot(slots, slot, after_down(None, marker, Some((target, origin)), location)),
        ).contains(target),
        has_target(state, target) ==> frame_targets(
            with_slot(slots, slot, after_motion(state, marker, location)),
        ).contains(target),
        has_target(state, target) ==> frame_targets(
            with_slot(slots, slot, after_change(state, marker)),
        ).contains(target),
        has_target(state, target) ==> frame_targets(
            with_slot(slots, slot, after_up(state, marker)),
        ).contains(target),
        state.frame_pending == Some(target) ==> frame_targets(
            with_slot(slots, slot, after_motion(state, marker, location)),
        ).contains(target),
{
    lemma_framed(slots, slot, after_down(Some(state), marker, Some((target, origin)), location), target);
    lemma_framed(slots, slot, after_down(None, marker, Some((target, origin)), location), target);
    lemma_framed(slots, slot, after_motion(state, marker, location), target);
    lemma_framed(slots, slot, after_change(state, marker), target);
    lemma_framed(slots, slot, after_up(state, marker), target);
}

/// A frame reaches the targets of a touch point whose last event was not told.
proof fn lemma_framed<P: Location>(
    slots: Seq<(TouchSlot, TouchSlotState<P>)>,
    slot: TouchSlot,
    state: TouchSlotState<P>,
    target: u64,
)
    ensures
        state.current != Some(state.pending) && (has_target(state, target) || state.frame_pending
            == Some(target)) ==> frame_targets(with_slot(slots, slot, state)).contains(target),
{
    slot_index_is_first(slots, slot);
    let after = with_slot(slots, slot, state);
    let i = slot_index(slots, slot);
    assert(after[i] == (slot, state));
    if state.current != Some(state.pending) {
        if state.frame_pending == Some(target) {
            lemma_frame_reaches(after, i, target);
        }
        if has_target(state, target) {
            lemma_frame_reaches_live(after, i, target);
        }
    }
}

proof fn lemma_frame_reaches_live<P>(
    slots: Seq<(TouchSlot, TouchSlotState<P>)>,
    i: int,
    target: u64,
)
    requires
        0 <= i < slots.len(),
        slots[i].1.current != Some(slots[i].1.pending),
        has_target(slots[i].1, target),
    ensures
        frame_targets(slots).contains(target),
    decreases slots.len(),
{
    let front = slots.drop_last();
    let before = frame_targets(front);
    let targets = frame_targets(slots);
    if i < slots.len() - 1 {
        assert(front[i] == slots[i]);
        lemma_frame_reaches_live(front, i, target);
        let k = choose|k: int| 0 <= k < before.len() && before[k] == target;
        assert(targets[k] == target);
    } else {
        assert(targets.last() == target);
    }
}

/// A frame is for nobody else: each of its targets has a touch point with an event that was not told,
/// or had one that ended. The same goes for those that are told of a cancellation, and for those that
/// are owed a frame.
pub proof fn nobody_else_is_told<P>(slots: Seq<(TouchSlot, TouchSlotState<P>)>, target: u64)
    ensures
        frame_targets(slots).contains(target) ==> exists|i: int|
            0 <= i < slots.len() && (#[trigger] slots[i]).1.current != Some(slots[i].1.pending) && (
            has_target(slots[i].1, target) || slots[i].1.frame_pending == Some(target)),
        live_targets(slots).contains(target) ==> exists|i: int|
            0 <= i < slots.len() && has_target((#[trigger] slots[i]).1, target),
        owed_targets(slots).contains(target) ==> exists|i: int|
            0 <= i < slots.len() && (#[trigger] slots[i]).1.frame_pending == Some(target),
    decreases slots.len(),
{
    if slots.len() > 0 {
        let front = slots.drop_last();
        nobody_else_is_told(front, target);
        let last = slots[slots.len() - 1];
        assert(last == slots.last());
        if frame_targets(slots).contains(target) {
            let told = frame_targets(front);
            if told.contains(target) {
                let i = choose|i: int|
                    0 <= i < front.len() && (#[trigger] front[i]).1.current != Some(
                        front[i].1.pending,
                    ) && (has_target(front[i].1, target) || front[i].1.frame_pending == Some(target));
                assert(slots[i] == front[i]);
            } else {
                let k = choose|k: int|
                    0 <= k < frame_targets(slots).len() && frame_targets(slots)[k] == target;
                if k < told.len() {
                    assert(told[k] == target);
                }
                assert(slots[slots.len() - 1].1.current != Some(last.1.pending));
            }
        }
        if live_targets(slots).contains(target) {
            let told = live_targets(front);
            if told.contains(target) {
                let i = choose|i: int|
                    0 <= i < front.len() && has_target((#[trigger] front[i]).1, target);
                assert(slots[i] == front[i]);
            } else {
                let k = choose|k: int|
                    0 <= k < live_targets(slots).len() && live_targets(slots)[k] == target;
                if k < told.len() {
                    assert(told[k] == target);
                }
                assert(has_target(slots[slots.len() - 1].1, target));
            }
        }
        if owed_targets(slots).contains(target) {
            let told = owed_targets(front);
            if told.contains(target) {
                let i = choose|i: int|
                    0 <= i < front.len() && (#[trigger] front[i]).1.frame_pending == Some(target);
                assert(slots[i] == front[i]);
            } else {
                let k = choose|k: int|
                    0 <= k < owed_targets(slots).len() && owed_targets(slots)[k] == target;
                if k < told.len() {
                    assert(told[k] == target);
                }
                assert(slots[slots.len() - 1].1.frame_pending == Some(target));
            }
        }
    }
}

/// A touch point keeps the target that it appeared with until it ends, and its target is told where it
/// is from its own origin. The target is told of each event, and nobody is told of a touch point
/// without one.
pub proof fn touch_points_keep_their_target<P: Location>(
    before: Option<TouchSlotState<P>>,
    state: TouchSlotState<P>,
    focus: Option<(u64, P)>,
    marker: FrameMarker,
    location: P,
)
    ensures
        after_down(before, marker, focus, location).focus == focus,
        after_down(before, marker, focus, location).pending == marker,
        after_down(before, marker, focus, location).frame_pending is None,
        focus matches Some((target, origin)) ==> after_down(before, marker, focus, location).delivered
            == Some((target, location.minus_spec(origin))) && local(focus, location) == Some(
            (target, location.minus_spec(origin)),
        ),
        focus is None ==> local(focus, location) is None,
        after_motion(state, marker, location).focus == state.focus,
        after_motion(state, marker, location).frame_pending == state.frame_pending,
        after_motion(state, marker, location).pending == marker,
        after_motion(state, marker, location).current == state.current,
        state.focus matches Some((target, origin)) ==> after_motion(
            state,
            marker,
            location,
        ).delivered == Some((target, location.minus_spec(origin))),
        after_change(state, marker).focus == state.focus,
        after_change(state, marker).delivered == state.delivered,
        after_change(state, marker).frame_pending == state.frame_pending,
        after_change(state, marker).current == state.current,
        after_change(state, marker).pending == marker,
        after_up(state, marker).focus is None,
        after_up(state, marker).pending == marker,
        after_up(state, marker).current == state.current,
        state.focus is None ==> after_up(state, marker).frame_pending == state.frame_pending,
        state.focus matches Some((target, _)) ==> after_up(state, marker).frame_pending == Some(
            target,
        ),
        target_of(state) is Some <==> state.focus is Some,
        target_of(state) matches Some(target) ==> has_target(state, target),
        after_frame(state, marker).focus == state.focus,
        after_frame(state, marker).delivered == state.delivered,
        after_frame(state, marker).pending == state.pending,
{
}

/// After a frame nothing is owed for the events that were in it, and it is not told again; one that
/// has nothing to tell changes nothing.
pub proof fn frames_settle_their_events<P>(state: TouchSlotState<P>, marker: FrameMarker)
    ensures
        state.pending == marker ==> after_frame(state, marker).current == Some(
            after_frame(state, marker).pending,
        ),
        state.current != Some(state.pending) ==> after_frame(state, marker).frame_pending is None,
        state.current == Some(state.pending) ==> after_frame(state, marker) == state,
        state.pending == marker ==> after_cancel(state, marker).current == Some(
            after_cancel(state, marker).pending,
        ),
        after_cancel(state, marker).pending == state.pending,
{
}

/// Events belong to the frame that is under way, and begin one where there is none.
pub proof fn events_share_a_frame(pending: Option<FrameMarker>, fresh: FrameMarker, other: FrameMarker)
    ensures
        pending matches Some(marker) ==> marker_of(pending, fresh) == marker,
        pending is None ==> marker_of(pending, fresh) == fresh,
        marker_of(Some(marker_of(pending, fresh)), other) == marker_of(pending, fresh),
{
}

/// A frame tells every touch point with events in it, once: after it they are told, and the next
/// frame is not for them unless something happens to them.
pub proof fn frames_are_told_once<P: Location>(
    slots: Seq<(TouchSlot, TouchSlotState<P>)>,
    marker: FrameMarker,
)
    requires
        forall|i: int|
            0 <= i < slots.len() ==> is_told((#[trigger] slots[i]).1) || slots[i].1.pending
                == marker,
    ensures
        ({
            let after = slots.map_values(
                |entry: (TouchSlot, TouchSlotState<P>)| (entry.0, after_frame(entry.1, marker)),
            );
            frame_targets(after).len() == 0
        }),
    decreases slots.len(),
{
    let after = slots.map_values(
        |entry: (TouchSlot, TouchSlotState<P>)| (entry.0, after_frame(entry.1, marker)),
    );
    if slots.len() > 0 {
        let front = slots.drop_last();
        assert forall|i: int| 0 <= i < front.len() implies is_told((#[trigger] front[i]).1)
            || front[i].1.pending == marker by {
            assert(front[i] == slots[i]);
        }
        frames_are_told_once(front, marker);
        assert(after.drop_last() =~= front.map_values(
            |entry: (TouchSlot, TouchSlotState<P>)| (entry.0, after_frame(entry.1, marker)),
        ));
        assert(is_told(slots[slots.len() - 1].1) || slots[slots.len() - 1].1.pending == marker);
    }
}

/// Tearing the stream down leaves nobody out: a target with a touch point is told of the
/// cancellation, and a target that is owed a frame gets it.
pub proof fn tearing_down_reaches_every_target<P: Location>(
    slots: Seq<(TouchSlot, TouchSlotState<P>)>,
    i: int,
)
    requires
        0 <= i < slots.len(),
    ensures
        slots[i].1.focus matches Some((target, _)) ==> live_targets(slots).contains(target),
        slots[i].1.frame_pending matches Some(target) ==> owed_targets(slots).contains(target),
    decreases slots.len(),
{
    let front = slots.drop_last();
    if i < slots.len() - 1 {
        tearing_down_reaches_every_target(front, i);
        assert(front[i] == slots[i]);
        if let Some((target, _)) = slots[i].1.focus {
            let k = choose|k: int|
                0 <= k < live_targets(front).len() && live_targets(front)[k] == target;
            assert(live_targets(slots)[k] == target);
        }
        if let Some(target) = slots[i].1.frame_pending {
            let k = choose|k: int|
                0 <= k < owed_targets(front).len() && owed_targets(front)[k] == target;
            assert(owed_targets(slots)[k] == target);
        }
    } else {
        if let Some((target, _)) = slots[i].1.focus {
            assert(live_targets(slots)[live_targets(front).len() as int] == target);
        }
        if let Some(target) = slots[i].1.frame_pending {
            assert(owed_targets(slots)[owed_targets(front).len() as int] == target);
        }
    }
}

} // verus!
