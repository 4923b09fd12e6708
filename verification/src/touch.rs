//! Touch points: who they belong to, and what their targets are told.

use vstd::prelude::*;
use crate::geometry::Point;

verus! {

/// A marker to identify a given touch frame.
///
/// A marker goes out with every frame and every cancellation. A target that remembers the last one
/// is told nothing twice, even if several touch points, or several targets of the same client, have
/// a part in the frame.
#[derive(Clone, Copy, Debug, PartialEq, Eq, Structural)]
pub struct FrameMarker {
    pub id: usize,
}

/// Identifies a touch point while it lasts. A device with a single touch point gives it no number.
#[derive(Clone, Copy, Debug, PartialEq, Eq, Structural)]
pub struct TouchSlot {
    pub id: Option<u32>,
}

impl vstd::std_specs::convert::FromSpecImpl<Option<u32>> for TouchSlot {
    open spec fn obeys_from_spec() -> bool {
        true
    }

    open spec fn from_spec(id: Option<u32>) -> TouchSlot {
        TouchSlot { id }
    }
}

impl From<Option<u32>> for TouchSlot {
    fn from(id: Option<u32>) -> (r: TouchSlot) {
        TouchSlot { id }
    }
}

/// A location in compositor space that can be told relative to the origin of a target.
///
/// `minus` has to compute the difference of the coordinates, and must do so for all locations for
/// which `minus_defined` holds.
pub trait Location: Copy {
    spec fn minus_defined(self, origin: Self) -> bool;

    spec fn minus_spec(self, origin: Self) -> Self;

    fn minus(self, origin: Self) -> (r: Self)
        requires
            self.minus_defined(origin),
        ensures
            r == self.minus_spec(origin),
    ;
}

impl Location for Point {
    open spec fn minus_defined(self, origin: Point) -> bool {
        self.minus_fits(origin)
    }

    open spec fn minus_spec(self, origin: Point) -> Point {
        Point { x: (self.x - origin.x) as i32, y: (self.y - origin.y) as i32 }
    }

    fn minus(self, origin: Point) -> (r: Point) {
        Point { x: self.x - origin.x, y: self.y - origin.y }
    }
}

/// A new touch point
#[derive(Clone, Copy, Debug)]
pub struct DownEvent<P> {
    /// Slot of this event
    pub slot: TouchSlot,
    /// Location of the touch in compositor space
    pub location: P,
    /// Serial of the event
    pub serial: u32,
    /// Timestamp of the event, with millisecond granularity
    pub time: u32,
}

/// The end of a touch point
#[derive(Clone, Copy, Debug)]
pub struct UpEvent {
    /// Slot of this event
    pub slot: TouchSlot,
    /// Serial of the event
    pub serial: u32,
    /// Timestamp of the event, with millisecond granularity
    pub time: u32,
}

/// A touch point that moves
#[derive(Clone, Copy, Debug)]
pub struct MotionEvent<P> {
    /// Slot of this event
    pub slot: TouchSlot,
    /// Location of the touch in compositor space
    pub location: P,
    /// Timestamp of the event, with millisecond granularity
    pub time: u32,
}

/// What is known about a touch point.
#[derive(Clone, Copy, Debug)]
pub struct TouchSlotState<P> {
    /// The target, and where its origin is in compositor space.
    pub focus: Option<(u64, P)>,
    /// The target and the point, relative to its origin, that it was told last.
    pub delivered: Option<(u64, P)>,
    /// A target whose touch point ended, and which still is to be told so by a frame.
    pub frame_pending: Option<u64>,
    /// The frame that the last event belongs to.
    pub pending: FrameMarker,
    /// The last frame that was told.
    pub current: Option<FrameMarker>,
}

/// How a grab started.
#[derive(Clone, Copy, Debug)]
pub struct GrabStartData<P> {
    /// The focused target and its origin, if any
    pub focus: Option<(u64, P)>,
    /// The touch point that initiated the grab
    pub slot: TouchSlot,
    /// The location of the down event that initiated the grab
    pub location: P,
}

/// A grab that intercepts touch events, with what the caller needs to run it.
pub struct ActiveGrab<P, G> {
    pub serial: u32,
    pub start_data: GrabStartData<P>,
    pub handler: G,
}

/// Whether touch events are intercepted.
pub enum GrabStatus<P, G> {
    Free,
    Active(ActiveGrab<P, G>),
    /// The grab is running.
    Borrowed,
}

/// Something a target is told about a touch point, relative to its own origin.
#[derive(Clone, Copy, Debug)]
pub struct Delivery<P> {
    pub target: u64,
    pub location: P,
}

/// The end of a set of events: each target has to be told, unless it knows the marker already.
pub struct FrameDelivery {
    pub marker: FrameMarker,
    pub targets: Vec<u64>,
}

/// The end of all touch points: the targets that are told of the cancellation, then those that are
/// told of a frame, unless they know the marker already; then the grab that has to be ended.
pub struct CancelDelivery<P, G> {
    pub marker: FrameMarker,
    pub cancelled: Vec<u64>,
    pub frames: Vec<u64>,
    pub unset: Option<ActiveGrab<P, G>>,
}

/// Whether a target has to be told about a frame or a cancellation, given the last marker that it
/// remembers.
pub fn owes_delivery(last_frame: Option<FrameMarker>, marker: FrameMarker) -> (r: bool)
    ensures
        r == (last_frame != Some(marker)),
{
    match last_frame {
        Some(last) => last != marker,
        None => true,
    }
}

/// The touch points of a seat.
pub struct TouchInternal<P, G> {
    pub slots: Vec<(TouchSlot, TouchSlotState<P>)>,
    pub pending_frame: Option<FrameMarker>,
    pub grab: GrabStatus<P, G>,
}

/// The position of a slot, or the length where there is none.
pub open spec fn slot_index<P>(slots: Seq<(TouchSlot, TouchSlotState<P>)>, slot: TouchSlot) -> int
    decreases slots.len(),
{
    if slots.len() == 0 {
        0
    } else if slots[0].0 == slot {
        0
    } else {
        1 + slot_index(slots.skip(1), slot)
    }
}

pub open spec fn has_slot<P>(slots: Seq<(TouchSlot, TouchSlotState<P>)>, slot: TouchSlot) -> bool {
    slot_index(slots, slot) < slots.len()
}

/// What is known about a slot.
pub open spec fn slot_state<P>(
    slots: Seq<(TouchSlot, TouchSlotState<P>)>,
    slot: TouchSlot,
) -> Option<TouchSlotState<P>> {
    if has_slot(slots, slot) {
        Some(slots[slot_index(slots, slot)].1)
    } else {
        None
    }
}

/// The slots with another state for one of them, which is added if it is not there.
pub open spec fn with_slot<P>(
    slots: Seq<(TouchSlot, TouchSlotState<P>)>,
    slot: TouchSlot,
    state: TouchSlotState<P>,
) -> Seq<(TouchSlot, TouchSlotState<P>)> {
    if has_slot(slots, slot) {
        slots.update(slot_index(slots, slot), (slot, state))
    } else {
        slots.push((slot, state))
    }
}

/// What the position of a slot means.
pub proof fn slot_index_is_first<P>(slots: Seq<(TouchSlot, TouchSlotState<P>)>, slot: TouchSlot)
    ensures
        0 <= slot_index(slots, slot) <= slots.len(),
        forall|j: int| 0 <= j < slot_index(slots, slot) ==> (#[trigger] slots[j]).0 != slot,
        has_slot(slots, slot) ==> slots[slot_index(slots, slot)].0 == slot,
    decreases slots.len(),
{
    if slots.len() > 0 && slots[0].0 != slot {
        let rest = slots.skip(1);
        slot_index_is_first(rest, slot);
        assert forall|j: int| 0 <= j < slot_index(slots, slot) implies (#[trigger] slots[j]).0
            != slot by {
            if j > 0 {
                assert(slots[j] == rest[j - 1]);
            }
        }
    }
}

proof fn lemma_slot_at<P>(slots: Seq<(TouchSlot, TouchSlotState<P>)>, slot: TouchSlot, i: int)
    requires
        0 <= i <= slots.len(),
        i < slots.len() ==> slots[i].0 == slot,
        forall|j: int| 0 <= j < i ==> (#[trigger] slots[j]).0 != slot,
    ensures
        slot_index(slots, slot) == i,
{
    slot_index_is_first(slots, slot);
    let k = slot_index(slots, slot);
    if k < i {
        assert(slots[k].0 != slot);
    }
    if i < k {
        assert(slots[i].0 != slot);
    }
}

/// Changing one slot changes what is known about that slot and about no other.
pub proof fn slots_are_independent<P>(
    slots: Seq<(TouchSlot, TouchSlotState<P>)>,
    slot: TouchSlot,
    state: TouchSlotState<P>,
    other: TouchSlot,
)
    ensures
        slot_state(with_slot(slots, slot, state), other) == (if other == slot {
            Some(state)
        } else {
            slot_state(slots, other)
        }),
{
    slot_index_is_first(slots, slot);
    slot_index_is_first(slots, other);
    let after = with_slot(slots, slot, state);
    let i = slot_index(slots, other);
    if other == slot || has_slot(slots, slot) || has_slot(slots, other) {
        assert forall|j: int| 0 <= j < i implies (#[trigger] after[j]).0 != other by {
            assert(slots[j].0 != other);
        }
        lemma_slot_at(after, other, i);
    } else {
        assert forall|j: int| 0 <= j < after.len() implies (#[trigger] after[j]).0 != other by {
            if j < slots.len() {
                assert(slots[j].0 != other);
            }
        }
        lemma_slot_at(after, other, after.len() as int);
    }
}

/// Whether every touch point has one entry.
pub open spec fn distinct_slots<P>(slots: Seq<(TouchSlot, TouchSlotState<P>)>) -> bool {
    forall|i: int, j: int|
        0 <= i < j < slots.len() ==> (#[trigger] slots[i]).0 != (#[trigger] slots[j]).0
}

proof fn lemma_with_slot_distinct<P>(
    slots: Seq<(TouchSlot, TouchSlotState<P>)>,
    slot: TouchSlot,
    state: TouchSlotState<P>,
)
    requires
        distinct_slots(slots),
    ensures
        distinct_slots(with_slot(slots, slot, state)),
{
    slot_index_is_first(slots, slot);
    let after = with_slot(slots, slot, state);
    assert forall|i: int, j: int| 0 <= i < j < after.len() implies (#[trigger] after[i]).0 != (
    #[trigger] after[j]).0 by {
        assert(i < slots.len());
        if j < slots.len() {
            assert(slots[i].0 != slots[j].0);
        } else {
            assert(slots[i].0 != slot);
        }
    }
}

/// What a target is told of a location.
pub open spec fn local<P: Location>(focus: Option<(u64, P)>, location: P) -> Option<(u64, P)> {
    match focus {
        Some((target, origin)) => Some((target, location.minus_spec(origin))),
        None => None,
    }
}

/// Whether a location can be told relative to the origin of a focus.
pub open spec fn local_defined<P: Location>(focus: Option<(u64, P)>, location: P) -> bool {
    focus matches Some((target, origin)) ==> location.minus_defined(origin)
}

/// A touch point that just appeared. Nothing of an earlier one in the same slot is left, but for
/// the last frame that was told.
pub open spec fn after_down<P: Location>(
    before: Option<TouchSlotState<P>>,
    marker: FrameMarker,
    focus: Option<(u64, P)>,
    location: P,
) -> TouchSlotState<P> {
    TouchSlotState {
        focus,
        delivered: local(focus, location),
        frame_pending: None,
        pending: marker,
        current: match before {
            Some(state) => state.current,
            None => None,
        },
    }
}

/// A touch point that ended. Its target is no longer told of it, but for the frame.
pub open spec fn after_up<P>(before: TouchSlotState<P>, marker: FrameMarker) -> TouchSlotState<P> {
    match before.focus {
        Some((target, _)) => TouchSlotState {
            focus: None,
            delivered: None,
            frame_pending: Some(target),
            pending: marker,
            ..before
        },
        None => TouchSlotState { pending: marker, ..before },
    }
}

/// A touch point that moved. Its focus stays the one it appeared with.
pub open spec fn after_motion<P: Location>(
    before: TouchSlotState<P>,
    marker: FrameMarker,
    location: P,
) -> TouchSlotState<P> {
    TouchSlotState {
        delivered: match before.focus {
            Some(_) => local(before.focus, location),
            None => before.delivered,
        },
        pending: marker,
        ..before
    }
}

/// A touch point that changed its shape or its orientation.
pub open spec fn after_change<P>(before: TouchSlotState<P>, marker: FrameMarker) -> TouchSlotState<
    P,
> {
    TouchSlotState { pending: marker, ..before }
}

/// The target that is told of a touch point.
pub open spec fn target_of<P>(state: TouchSlotState<P>) -> Option<u64> {
    match state.focus {
        Some((target, _)) => Some(target),
        None => None,
    }
}

/// Whether the last event of a touch point was told in a frame already.
pub open spec fn is_told<P>(state: TouchSlotState<P>) -> bool {
    state.current == Some(state.pending)
}

/// A touch point after a frame.
pub open spec fn after_frame<P>(state: TouchSlotState<P>, marker: FrameMarker) -> TouchSlotState<P> {
    if is_told(state) {
        state
    } else {
        TouchSlotState { current: Some(marker), frame_pending: None, ..state }
    }
}

/// A touch point after a cancellation: it has no target any more, nor is one owed a frame for it.
pub open spec fn after_cancel<P>(state: TouchSlotState<P>, marker: FrameMarker) -> TouchSlotState<
    P,
> {
    TouchSlotState {
        current: if is_told(state) {
            state.current
        } else {
            Some(marker)
        },
        focus: None,
        delivered: None,
        frame_pending: None,
        ..state
    }
}

/// The targets that a frame is for: of every touch point with untold events, the one it left and
/// the one it has.
pub open spec fn frame_targets<P>(slots: Seq<(TouchSlot, TouchSlotState<P>)>) -> Seq<u64>
    decreases slots.len(),
{
    if slots.len() == 0 {
        Seq::empty()
    } else {
        let before = frame_targets(slots.drop_last());
        let state = slots.last().1;
        if is_told(state) {
            before
        } else {
            let left = match state.frame_pending {
                Some(target) => before.push(target),
                None => before,
            };
            match state.focus {
                Some((target, _)) => left.push(target),
                None => left,
            }
        }
    }
}

/// All targets that have a touch point.
pub open spec fn live_targets<P>(slots: Seq<(TouchSlot, TouchSlotState<P>)>) -> Seq<u64>
    decreases slots.len(),
{
    if slots.len() == 0 {
        Seq::empty()
    } else {
        let before = live_targets(slots.drop_last());
        match slots.last().1.focus {
            Some((target, _)) => before.push(target),
            None => before,
        }
    }
}

/// All targets that are owed a frame for a touch point that ended.
pub open spec fn owed_targets<P>(slots: Seq<(TouchSlot, TouchSlotState<P>)>) -> Seq<u64>
    decreases slots.len(),
{
    if slots.len() == 0 {
        Seq::empty()
    } else {
        let before = owed_targets(slots.drop_last());
        match slots.last().1.frame_pending {
            Some(target) => before.push(target),
            None => before,
        }
    }
}

/// The marker of the frame that an event belongs to: the one that is under way, or else a new one.
pub open spec fn marker_of(pending: Option<FrameMarker>, fresh: FrameMarker) -> FrameMarker {
    match pending {
        Some(marker) => marker,
        None => fresh,
    }
}

impl<P: Location, G> TouchInternal<P, G> {
    pub open spec fn wf(self) -> bool {
        distinct_slots(self.slots@)
    }

    pub open spec fn state_of(self, slot: TouchSlot) -> Option<TouchSlotState<P>> {
        slot_state(self.slots@, slot)
    }

    /// No touch points, and no grab.
    pub fn new() -> (r: TouchInternal<P, G>)
        ensures
            r.wf(),
            r.slots@.len() == 0,
            r.pending_frame is None,
            r.grab is Free,
    {
        TouchInternal { slots: Vec::new(), pending_frame: None, grab: GrabStatus::Free }
    }

    fn find(&self, slot: TouchSlot) -> (r: Option<usize>)
        ensures
            r.is_some() == has_slot(self.slots@, slot),
            r matches Some(i) ==> i == slot_index(self.slots@, slot),
    {
        let mut i: usize = 0;
        while i < self.slots.len()
            invariant
                i <= self.slots.len(),
                forall|j: int| 0 <= j < i ==> (#[trigger] self.slots@[j]).0 != slot,
            decreases self.slots.len() - i,
        {
            if self.slots[i].0 == slot {
                proof {
                    lemma_slot_at(self.slots@, slot, i as int);
                }
                return Some(i);
            }
            i = i + 1;
        }
        proof {
            lemma_slot_at(self.slots@, slot, i as int);
        }
        None
    }

    /// What is known about a touch point.
    pub fn slot(&self, slot: TouchSlot) -> (r: Option<TouchSlotState<P>>)
        ensures
            r == self.state_of(slot),
    {
        match self.find(slot) {
            Some(i) => Some(self.slots[i].1),
            None => None,
        }
    }

    fn frame_marker(&mut self, fresh: FrameMarker) -> (r: FrameMarker)
        ensures
            r == marker_of(old(self).pending_frame, fresh),
            *final(self) == (TouchInternal { pending_frame: Some(r), ..*old(self) }),
    {
        match self.pending_frame {
            Some(marker) => marker,
            None => {
                self.pending_frame = Some(fresh);
                fresh
            },
        }
    }

    fn put(&mut self, slot: TouchSlot, state: TouchSlotState<P>)
        requires
            old(self).wf(),
        ensures
            final(self).wf(),
            final(self).slots@ == with_slot(old(self).slots@, slot, state),
            final(self).pending_frame == old(self).pending_frame,
            final(self).grab == old(self).grab,
    {
        proof {
            lemma_with_slot_distinct(self.slots@, slot, state);
        }
        match self.find(slot) {
            Some(i) => self.slots.set(i, (slot, state)),
            None => self.slots.push((slot, state)),
        }
    }

    /// A new touch point appeared. Its target, if it has one, is told where.
    pub fn down(&mut self, focus: Option<(u64, P)>, event: &DownEvent<P>, fresh: FrameMarker) -> (r:
        Option<Delivery<P>>)
        requires
            old(self).wf(),
            local_defined(focus, event.location),
        ensures
            final(self).wf(),
            final(self).grab == old(self).grab,
            final(self).pending_frame == Some(marker_of(old(self).pending_frame, fresh)),
            final(self).slots@ == with_slot(
                old(self).slots@,
                event.slot,
                after_down(
                    old(self).state_of(event.slot),
                    marker_of(old(self).pending_frame, fresh),
                    focus,
                    event.location,
                ),
            ),
            r == (match local(focus, event.location) {
                Some((target, location)) => Some(Delivery { target, location }),
                None => None,
            }),
    {
        let marker = self.frame_marker(fresh);
        let delivered = match focus {
            Some((target, origin)) => Some((target, event.location.minus(origin))),
            None => None,
        };
        let current = match self.slot(event.slot) {
            Some(state) => state.current,
            None => None,
        };
        self.put(
            event.slot,
            TouchSlotState { focus, delivered, frame_pending: None, pending: marker, current },
        );
        match delivered {
            Some((target, location)) => Some(Delivery { target, location }),
            None => None,
        }
    }

    /// A touch point ended. Hands out the target that is told, if the touch point had one.
    pub fn up(&mut self, event: &UpEvent, fresh: FrameMarker) -> (r: Option<u64>)
        requires
            old(self).wf(),
        ensures
            final(self).wf(),
            final(self).grab == old(self).grab,
            final(self).pending_frame == Some(marker_of(old(self).pending_frame, fresh)),
            match old(self).state_of(event.slot) {
                Some(state) => final(self).slots@ == with_slot(
                    old(self).slots@,
                    event.slot,
                    after_up(state, marker_of(old(self).pending_frame, fresh)),
                ) && r == target_of(state),
                None => final(self).slots@ == old(self).slots@ && r is None,
            },
    {
        let marker = self.frame_marker(fresh);
        match self.slot(event.slot) {
            None => None,
            Some(state) => {
                let mut updated = state;
                updated.pending = marker;
                let mut told: Option<u64> = None;
                if let Some((target, _)) = state.focus {
                    updated.focus = None;
                    updated.delivered = None;
                    updated.frame_pending = Some(target);
                    told = Some(target);
                }
                self.put(event.slot, updated);
                told
            },
        }
    }

    /// A touch point moved. Its target is told where, relative to the origin that is stored for the
    /// touch point.
    pub fn motion(&mut self, event: &MotionEvent<P>, fresh: FrameMarker) -> (r: Option<Delivery<P>>)
        requires
            old(self).wf(),
            old(self).state_of(event.slot) matches Some(state) ==> local_defined(
                state.focus,
                event.location,
            ),
        ensures
            final(self).wf(),
            final(self).grab == old(self).grab,
            final(self).pending_frame == Some(marker_of(old(self).pending_frame, fresh)),
            match old(self).state_of(event.slot) {
                Some(state) => final(self).slots@ == with_slot(
                    old(self).slots@,
                    event.slot,
                    after_motion(state, marker_of(old(self).pending_frame, fresh), event.location),
                ) && r == (match local(state.focus, event.location) {
                    Some((target, location)) => Some(Delivery { target, location }),
                    None => None,
                }),
                None => final(self).slots@ == old(self).slots@ && r is None,
            },
    {
        let marker = self.frame_marker(fresh);
        match self.slot(event.slot) {
            None => None,
            Some(state) => {
                let mut updated = state;
                updated.pending = marker;
                let mut told: Option<Delivery<P>> = None;
                if let Some((target, origin)) = state.focus {
                    let location = event.location.minus(origin);
                    updated.delivered = Some((target, location));
                    told = Some(Delivery { target, location });
                }
                self.put(event.slot, updated);
                told
            },
        }
    }

    /// The shape or the orientation of a touch point changed. Hands out the target that is told.
    fn change(&mut self, slot: TouchSlot, fresh: FrameMarker) -> (r: Option<u64>)
        requires
            old(self).wf(),
        ensures
            final(self).wf(),
            final(self).grab == old(self).grab,
            final(self).pending_frame == Some(marker_of(old(self).pending_frame, fresh)),
            match old(self).state_of(slot) {
                Some(state) => final(self).slots@ == with_slot(
                    old(self).slots@,
                    slot,
                    after_change(state, marker_of(old(self).pending_frame, fresh)),
                ) && r == target_of(state),
                None => final(self).slots@ == old(self).slots@ && r is None,
            },
    {
        let marker = self.frame_marker(fresh);
        match self.slot(slot) {
            None => None,
            Some(state) => {
                let mut updated = state;
                updated.pending = marker;
                self.put(slot, updated);
                match state.focus {
                    Some((target, _)) => Some(target),
                    None => None,
                }
            },
        }
    }

    /// A touch point changed its shape. Hands out the target that is told.
    pub fn shape(&mut self, slot: TouchSlot, fresh: FrameMarker) -> (r: Option<u64>)
        requires
            old(self).wf(),
        ensures
            final(self).wf(),
            final(self).grab == old(self).grab,
            final(self).pending_frame == Some(marker_of(old(self).pending_frame, fresh)),
            match old(self).state_of(slot) {
                Some(state) => final(self).slots@ == with_slot(
                    old(self).slots@,
                    slot,
                    after_change(state, marker_of(old(self).pending_frame, fresh)),
                ) && r == target_of(state),
                None => final(self).slots@ == old(self).slots@ && r is None,
            },
    {
        self.change(slot, fresh)
    }

    /// A touch point changed its orientation. Hands out the target that is told.
    pub fn orientation(&mut self, slot: TouchSlot, fresh: FrameMarker) -> (r: Option<u64>)
        requires
            old(self).wf(),
        ensures
            final(self).wf(),
            final(self).grab == old(self).grab,
            final(self).pending_frame == Some(marker_of(old(self).pending_frame, fresh)),
            match old(self).state_of(slot) {
                Some(state) => final(self).slots@ == with_slot(
                    old(self).slots@,
                    slot,
                    after_change(state, marker_of(old(self).pending_frame, fresh)),
                ) && r == target_of(state),
                None => final(self).slots@ == old(self).slots@ && r is None,
            },
    {
        self.change(slot, fresh)
    }

    /// Forget the last event actually delivered for a touch slot.
    pub fn forget_slot_delivery(&mut self, slot: TouchSlot)
        requires
            old(self).wf(),
        ensures
            final(self).wf(),
            final(self).grab == old(self).grab,
            final(self).pending_frame == old(self).pending_frame,
            final(self).slots@ == (match old(self).state_of(slot) {
                Some(state) => with_slot(
                    old(self).slots@,
                    slot,
                    TouchSlotState { delivered: None, ..state },
                ),
                None => old(self).slots@,
            }),
    {
        if let Some(state) = self.slot(slot) {
            let mut updated = state;
            updated.delivered = None;
            self.put(slot, updated);
        }
    }

    /// Whether one or more attempted touch events still owe a frame.
    pub fn has_pending_frame(&self) -> (r: bool)
        ensures
            r == self.pending_frame.is_some(),
    {
        self.pending_frame.is_some()
    }

    /// Ends a set of events that belong together. Nothing happens without events before. The marker
    /// is free again afterwards.
    pub fn frame(&mut self) -> (r: Option<FrameDelivery>)
        requires
            old(self).wf(),
        ensures
            final(self).wf(),
            final(self).grab == old(self).grab,
            final(self).pending_frame is None,
            match old(self).pending_frame {
                None => r is None && final(self).slots@ == old(self).slots@,
                Some(marker) => r matches Some(delivery) && delivery.marker == marker
                    && delivery.targets@ == frame_targets(old(self).slots@) && final(self).slots@
                    == old(self).slots@.map_values(
                    |entry: (TouchSlot, TouchSlotState<P>)| (entry.0, after_frame(entry.1, marker)),
                ),
            },
    {
        let marker = match self.pending_frame.take() {
            Some(marker) => marker,
            None => {
                return None;
            },
        };
        let mut targets: Vec<u64> = Vec::new();
        let mut i: usize = 0;
        let ghost framed = old(self).slots@.map_values(
            |entry: (TouchSlot, TouchSlotState<P>)| (entry.0, after_frame(entry.1, marker)),
        );
        assert(old(self).slots@.take(0) =~= Seq::empty());
        while i < self.slots.len()
            invariant
                i <= self.slots.len(),
                self.slots@.len() == old(self).slots@.len(),
                self.grab == old(self).grab,
                self.pending_frame is None,
                framed == old(self).slots@.map_values(
                    |entry: (TouchSlot, TouchSlotState<P>)| (entry.0, after_frame(entry.1, marker)),
                ),
                targets@ == frame_targets(old(self).slots@.take(i as int)),
                forall|j: int| 0 <= j < i ==> self.slots@[j] == framed[j],
                forall|j: int| i <= j < self.slots@.len() ==> self.slots@[j] == old(self).slots@[j],
            decreases self.slots.len() - i,
        {
            let (slot, state) = self.slots[i];
            assert(old(self).slots@.take(i as int + 1).drop_last() =~= old(self).slots@.take(
                i as int,
            ));
            let told = match state.current {
                Some(current) => current == state.pending,
                None => false,
            };
            if !told {
                let mut updated = state;
                updated.current = Some(marker);
                updated.frame_pending = None;
                self.slots.set(i, (slot, updated));
                if let Some(target) = state.frame_pending {
                    targets.push(target);
                }
                if let Some((target, _)) = state.focus {
                    targets.push(target);
                }
            }
            i = i + 1;
        }
        proof {
            assert(old(self).slots@.take(i as int) =~= old(self).slots@);
            assert(self.slots@ =~= framed);
            lemma_same_slots(old(self).slots@, self.slots@);
        }
        Some(FrameDelivery { marker, targets })
    }

    /// Cancels the touch session: every target with a touch point is told, and nobody is told of these
    /// touch points any more. Nothing happens without events before. The marker is free again
    /// afterwards.
    pub fn cancel(&mut self) -> (r: Option<FrameDelivery>)
        requires
            old(self).wf(),
        ensures
            final(self).wf(),
            final(self).grab == old(self).grab,
            final(self).pending_frame is None,
            match old(self).pending_frame {
                None => r is None && final(self).slots@ == old(self).slots@,
                Some(marker) => r matches Some(delivery) && delivery.marker == marker
                    && delivery.targets@ == live_targets(old(self).slots@) && final(self).slots@
                    == old(self).slots@.map_values(
                    |entry: (TouchSlot, TouchSlotState<P>)|
                        (entry.0, after_cancel(entry.1, marker)),
                ),
            },
    {
        let marker = match self.pending_frame.take() {
            Some(marker) => marker,
            None => {
                return None;
            },
        };
        let mut targets: Vec<u64> = Vec::new();
        let mut i: usize = 0;
        let ghost cancelled = old(self).slots@.map_values(
            |entry: (TouchSlot, TouchSlotState<P>)| (entry.0, after_cancel(entry.1, marker)),
        );
        assert(old(self).slots@.take(0) =~= Seq::empty());
        while i < self.slots.len()
            invariant
                i <= self.slots.len(),
                self.slots@.len() == old(self).slots@.len(),
                self.grab == old(self).grab,
                self.pending_frame is None,
                cancelled == old(self).slots@.map_values(
                    |entry: (TouchSlot, TouchSlotState<P>)|
                        (entry.0, after_cancel(entry.1, marker)),
                ),
                targets@ == live_targets(old(self).slots@.take(i as int)),
                forall|j: int| 0 <= j < i ==> self.slots@[j] == cancelled[j],
                forall|j: int| i <= j < self.slots@.len() ==> self.slots@[j] == old(self).slots@[j],
            decreases self.slots.len() - i,
        {
            let (slot, state) = self.slots[i];
            assert(old(self).slots@.take(i as int + 1).drop_last() =~= old(self).slots@.take(
                i as int,
            ));
            let told = match state.current {
                Some(current) => current == state.pending,
                None => false,
            };
            let mut updated = state;
            if !told {
                updated.current = Some(marker);
            }
            if let Some((target, _)) = state.focus {
                targets.push(target);
            }
            updated.focus = None;
            updated.delivered = None;
            updated.frame_pending = None;
            self.slots.set(i, (slot, updated));
            i = i + 1;
        }
        proof {
            assert(old(self).slots@.take(i as int) =~= old(self).slots@);
            assert(self.slots@ =~= cancelled);
            lemma_same_slots(old(self).slots@, self.slots@);
        }
        Some(FrameDelivery { marker, targets })
    }

    /// Tears the whole touch stream down, whether or not a frame is under way: every target with a
    /// touch point is told of the cancellation, every target that is owed a frame for a touch point
    /// that ended is told so, and the grab ends. The marker is free again afterwards.
    pub fn cancel_all(&mut self, fresh: FrameMarker) -> (r: CancelDelivery<P, G>)
        requires
            old(self).wf(),
        ensures
            final(self).wf(),
            final(self).slots@.len() == 0,
            final(self).pending_frame is None,
            final(self).grab is Free,
            r.marker == marker_of(old(self).pending_frame, fresh),
            r.cancelled@ == live_targets(old(self).slots@),
            r.frames@ == owed_targets(old(self).slots@),
            r.unset == (match old(self).grab {
                GrabStatus::Active(grab) => Some(grab),
                _ => None,
            }),
    {
        let marker = self.frame_marker(fresh);
        let mut cancelled: Vec<u64> = Vec::new();
        let mut frames: Vec<u64> = Vec::new();
        let mut i: usize = 0;
        assert(self.slots@.take(0) =~= Seq::empty());
        while i < self.slots.len()
            invariant
                i <= self.slots.len(),
                cancelled@ == live_targets(self.slots@.take(i as int)),
                frames@ == owed_targets(self.slots@.take(i as int)),
            decreases self.slots.len() - i,
        {
            let state = self.slots[i].1;
            assert(self.slots@.take(i as int + 1).drop_last() =~= self.slots@.take(i as int));
            if let Some((target, _)) = state.focus {
                cancelled.push(target);
            }
            if let Some(target) = state.frame_pending {
                frames.push(target);
            }
            i = i + 1;
        }
        assert(self.slots@.take(i as int) =~= self.slots@);
        self.slots.clear();
        self.pending_frame = None;
        let unset = self.unset_grab();
        CancelDelivery { marker, cancelled, frames, unset }
    }

    /// Replaces the grab. The grab that was active, if any, is handed out to be ended.
    pub fn set_grab(&mut self, grab: ActiveGrab<P, G>) -> (r: Option<ActiveGrab<P, G>>)
        requires
            old(self).wf(),
        ensures
            final(self).wf(),
            final(self).slots == old(self).slots,
            final(self).pending_frame == old(self).pending_frame,
            final(self).grab == GrabStatus::Active(grab),
            r == (match old(self).grab {
                GrabStatus::Active(before) => Some(before),
                _ => None,
            }),
    {
        let mut status = GrabStatus::Active(grab);
        std::mem::swap(&mut self.grab, &mut status);
        match status {
            GrabStatus::Active(before) => Some(before),
            _ => None,
        }
    }

    /// Ends any grab. The grab that was active, if any, is handed out to be ended.
    pub fn unset_grab(&mut self) -> (r: Option<ActiveGrab<P, G>>)
        requires
            old(self).wf(),
        ensures
            final(self).wf(),
            final(self).slots == old(self).slots,
            final(self).pending_frame == old(self).pending_frame,
            final(self).grab is Free,
            r == (match old(self).grab {
                GrabStatus::Active(before) => Some(before),
                _ => None,
            }),
    {
        let mut status = GrabStatus::Free;
        std::mem::swap(&mut self.grab, &mut status);
        match status {
            GrabStatus::Active(before) => Some(before),
            _ => None,
        }
    }

    /// Check if this touch is currently grabbed with this serial
    pub fn has_grab(&self, serial: u32) -> (r: bool)
        ensures
            r == (self.grab matches GrabStatus::Active(grab) && grab.serial == serial),
    {
        match &self.grab {
            GrabStatus::Active(grab) => grab.serial == serial,
            _ => false,
        }
    }

    /// Check if this touch is currently being grabbed
    pub fn is_grabbed(&self) -> (r: bool)
        ensures
            r == !(self.grab is Free),
    {
        match &self.grab {
            GrabStatus::Free => false,
            _ => true,
        }
    }

    /// Returns the start data for the grab, if any.
    pub fn grab_start_data(&self) -> (r: Option<GrabStartData<P>>)
        ensures
            r == (match self.grab {
                GrabStatus::Active(grab) => Some(grab.start_data),
                _ => None,
            }),
    {
        match &self.grab {
            GrabStatus::Active(grab) => Some(grab.start_data),
            _ => None,
        }
    }

    /// Takes the grab out to run it on an event, given which targets are alive. A grab whose
    /// target is gone is to be ended, and the default is run in its place. No grab may be running.
    pub fn borrow_grab(&mut self, alive: &Vec<u64>) -> (r: BorrowedGrab<P, G>)
        requires
            old(self).wf(),
            !(old(self).grab is Borrowed),
        ensures
            final(self).wf(),
            final(self).slots == old(self).slots,
            final(self).pending_frame == old(self).pending_frame,
            match old(self).grab {
                GrabStatus::Free => r is Default && final(self).grab is Borrowed,
                GrabStatus::Active(grab) => if grab.start_data.focus matches Some((target, _))
                    && !alive@.contains(target) {
                    r == BorrowedGrab::Dead(grab) && final(self).grab is Free
                } else {
                    r == BorrowedGrab::Active(grab) && final(self).grab is Borrowed
                },
                GrabStatus::Borrowed => false,
            },
    {
        let mut status = GrabStatus::Borrowed;
        std::mem::swap(&mut self.grab, &mut status);
        match status {
            GrabStatus::Active(grab) => {
                if let Some((target, _)) = grab.start_data.focus {
                    if !contains_target(alive, target) {
                        self.grab = GrabStatus::Free;
                        return BorrowedGrab::Dead(grab);
                    }
                }
                BorrowedGrab::Active(grab)
            },
            _ => BorrowedGrab::Default,
        }
    }

    /// Puts the grab back after it was run, unless it was ended or replaced meanwhile. Where no grab
    /// was active, none is.
    pub fn return_grab(&mut self, grab: Option<ActiveGrab<P, G>>) -> (r: Option<ActiveGrab<P, G>>)
        requires
            old(self).wf(),
        ensures
            final(self).wf(),
            final(self).slots == old(self).slots,
            final(self).pending_frame == old(self).pending_frame,
            old(self).grab is Borrowed ==> r is None && final(self).grab == (match grab {
                Some(grab) => GrabStatus::Active(grab),
                None => GrabStatus::Free,
            }),
            !(old(self).grab is Borrowed) ==> r == grab && final(self).grab == old(self).grab,
    {
        match &self.grab {
            GrabStatus::Borrowed => {},
            _ => {
                return grab;
            },
        }
        match grab {
            Some(grab) => {
                self.grab = GrabStatus::Active(grab);
            },
            None => {
                self.grab = GrabStatus::Free;
            },
        }
        None
    }

    /// Recompute the origin each live touch slot has its delivered coordinates pinned to.
    ///
    /// `f` is handed each touch point with its target, the stored origin, and what the target was
    /// told last. It gives the new origin, or nothing to leave the stored one alone.
    pub fn with_slot_origins<F: Fn(TouchSlot, u64, P, Option<(u64, P)>) -> Option<P>>(&mut self, f: F)
        requires
            old(self).wf(),
            forall|slot: TouchSlot, target: u64, origin: P, delivered: Option<(u64, P)>|
                call_requires(f, (slot, target, origin, delivered)),
        ensures
            final(self).wf(),
            final(self).grab == old(self).grab,
            final(self).pending_frame == old(self).pending_frame,
            final(self).slots@.len() == old(self).slots@.len(),
            forall|i: int|
                0 <= i < old(self).slots@.len() ==> origin_refreshed(
                    f,
                    #[trigger] old(self).slots@[i],
                    final(self).slots@[i],
                ),
    {
        let mut i: usize = 0;
        while i < self.slots.len()
            invariant
                i <= self.slots.len(),
                self.slots@.len() == old(self).slots@.len(),
                self.grab == old(self).grab,
                self.pending_frame == old(self).pending_frame,
                forall|slot: TouchSlot, target: u64, origin: P, delivered: Option<(u64, P)>|
                    call_requires(f, (slot, target, origin, delivered)),
                forall|j: int|
                    0 <= j < i ==> origin_refreshed(
                        f,
                        #[trigger] old(self).slots@[j],
                        self.slots@[j],
                    ),
                forall|j: int| i <= j < self.slots@.len() ==> self.slots@[j] == old(self).slots@[j],
            decreases self.slots.len() - i,
        {
            let (slot, state) = self.slots[i];
            if let Some((target, origin)) = state.focus {
                let refreshed = f(slot, target, origin, state.delivered);
                if let Some(new_origin) = refreshed {
                    let mut updated = state;
                    updated.focus = Some((target, new_origin));
                    self.slots.set(i, (slot, updated));
                }
                assert(call_ensures(f, (slot, target, origin, state.delivered), refreshed));
            }
            i = i + 1;
        }
        proof {
            assert forall|j: int| 0 <= j < self.slots@.len() implies (#[trigger] self.slots@[j]).0
                == old(self).slots@[j].0 by {
                assert(origin_refreshed(f, old(self).slots@[j], self.slots@[j]));
            }
            lemma_same_slots(old(self).slots@, self.slots@);
        }
    }

    /// Recompute the origin the active grab seeds *new* touch points from.
    ///
    /// `f` is handed the target of the grab and gives its origin, or nothing to leave the stored
    /// one alone.
    pub fn with_grab_origin<F: FnOnce(u64) -> Option<P>>(&mut self, f: F)
        requires
            old(self).wf(),
            forall|target: u64| call_requires(f, (target,)),
        ensures
            final(self).wf(),
            final(self).slots == old(self).slots,
            final(self).pending_frame == old(self).pending_frame,
            match old(self).grab {
                GrabStatus::Active(grab) => match grab.start_data.focus {
                    Some((target, origin)) => exists|refreshed: Option<P>|
                        #![trigger call_ensures(f, (target,), refreshed)]
                        call_ensures(f, (target,), refreshed) && final(self).grab
                            == GrabStatus::Active(
                            ActiveGrab {
                                start_data: GrabStartData {
                                    focus: Some(
                                        (
                                            target,
                                            match refreshed {
                                                Some(new_origin) => new_origin,
                                                None => origin,
                                            },
                                        ),
                                    ),
                                    ..grab.start_data
                                },
                                ..grab
                            },
                        ),
                    None => final(self).grab == old(self).grab,
                },
                _ => final(self).grab == old(self).grab,
            },
    {
        let mut status = GrabStatus::Borrowed;
        std::mem::swap(&mut self.grab, &mut status);
        match status {
            GrabStatus::Active(grab) => {
                let mut updated = grab;
                if let Some((target, origin)) = updated.start_data.focus {
                    let refreshed = f(target);
                    assert(call_ensures(f, (target,), refreshed));
                    match refreshed {
                        Some(new_origin) => {
                            updated.start_data.focus = Some((target, new_origin));
                        },
                        None => {},
                    }
                }
                self.grab = GrabStatus::Active(updated);
            },
            other => {
                self.grab = other;
            },
        }
    }
}

/// Whether an entry is what a refresh of origins makes of it.
pub open spec fn origin_refreshed<P, F: Fn(TouchSlot, u64, P, Option<(u64, P)>) -> Option<P>>(
    f: F,
    before: (TouchSlot, TouchSlotState<P>),
    after: (TouchSlot, TouchSlotState<P>),
) -> bool {
    match before.1.focus {
        None => after == before,
        Some((target, origin)) => exists|refreshed: Option<P>|
            #![trigger call_ensures(f, (before.0, target, origin, before.1.delivered), refreshed)]
            call_ensures(f, (before.0, target, origin, before.1.delivered), refreshed) && after == (
                before.0,
                TouchSlotState {
                    focus: Some(
                        (
                            target,
                            match refreshed {
                                Some(new_origin) => new_origin,
                                None => origin,
                            },
                        ),
                    ),
                    ..before.1
                },
            ),
    }
}

/// A grab that is taken out to be run.
pub enum BorrowedGrab<P, G> {
    /// No grab is active: the default is run.
    Default,
    Active(ActiveGrab<P, G>),
    /// The target of the grab is gone: the grab has to be ended, and the default is run.
    Dead(ActiveGrab<P, G>),
}

proof fn lemma_same_slots<P>(
    a: Seq<(TouchSlot, TouchSlotState<P>)>,
    b: Seq<(TouchSlot, TouchSlotState<P>)>,
)
    requires
        distinct_slots(a),
        a.len() == b.len(),
        forall|i: int| 0 <= i < a.len() ==> (#[trigger] b[i]).0 == a[i].0,
    ensures
        distinct_slots(b),
{
    assert forall|i: int, j: int| 0 <= i < j < b.len() implies (#[trigger] b[i]).0 != (
    #[trigger] b[j]).0 by {
        assert(a[i].0 != a[j].0);
    }
}

fn contains_target(targets: &Vec<u64>, target: u64) -> (r: bool)
    ensures
        r == targets@.contains(target),
{
    let mut i: usize = 0;
    while i < targets.len()
        invariant
            i <= targets.len(),
            forall|j: int| 0 <= j < i ==> targets@[j] != target,
        decreases targets.len() - i,
    {
        if targets[i] == target {
            assert(targets@[i as int] == target);
            return true;
        }
        i = i + 1;
    }
    false
}

} // verus!
