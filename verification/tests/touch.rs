use std::cell::Cell;

use compositor_core::geometry::Point as PixelPoint;
use compositor_core::touch::{
    owes_delivery, ActiveGrab, BorrowedGrab, Delivery, DownEvent, FrameDelivery, FrameMarker,
    GrabStartData, Location, MotionEvent, TouchInternal, TouchSlot, UpEvent,
};

/// A location with fractional coordinates.
#[derive(Clone, Copy, Debug, PartialEq)]
struct Point {
    x: f64,
    y: f64,
}

impl From<(f64, f64)> for Point {
    fn from((x, y): (f64, f64)) -> Self {
        Point { x, y }
    }
}

impl std::ops::Sub for Point {
    type Output = Point;
    fn sub(self, other: Point) -> Point {
        Point { x: self.x - other.x, y: self.y - other.y }
    }
}

impl Location for Point {
    fn minus_defined(self, _origin: Point) -> bool {
        true
    }

    fn minus_spec(self, origin: Point) -> Point {
        self - origin
    }

    fn minus(self, origin: Point) -> Point {
        self - origin
    }
}

#[derive(Debug, Clone, PartialEq)]
enum Delivered {
    Down { slot: TouchSlot, location: Point },
    Motion { slot: TouchSlot, location: Point },
}

/// What a grab does with events.
#[derive(Clone, Copy, PartialEq, Eq, Debug)]
enum Grab {
    /// Pins every touch point to the focus the grab started with.
    Pinning,
    /// Swallows motion.
    DroppingMotion,
}

const TARGET: u64 = 11;

/// A touch handle that runs grabs, and records what the one target receives in its own coordinates.
struct Touch {
    inner: TouchInternal<Point, Grab>,
    markers: usize,
    serial: u32,
    record: Vec<Delivered>,
}

impl Touch {
    fn new() -> Self {
        Touch { inner: TouchInternal::new(), markers: 0, serial: 0, record: Vec::new() }
    }

    fn take(&mut self) -> Vec<Delivered> {
        std::mem::take(&mut self.record)
    }

    fn fresh(&mut self) -> FrameMarker {
        self.markers += 1;
        FrameMarker { id: self.markers }
    }

    fn set_grab(&mut self, handler: Grab, start_data: GrabStartData<Point>) {
        self.serial += 1;
        assert!(self.inner.set_grab(ActiveGrab { serial: self.serial, start_data, handler }).is_none());
    }

    fn down(&mut self, focus: Option<(u64, Point)>, event: &DownEvent<Point>) {
        let fresh = self.fresh();
        let grab = match self.inner.borrow_grab(&vec![TARGET]) {
            BorrowedGrab::Default => None,
            BorrowedGrab::Active(grab) => Some(grab),
            BorrowedGrab::Dead(_) => unreachable!(),
        };
        let focus = match &grab {
            Some(grab) if grab.handler == Grab::Pinning => grab.start_data.focus,
            _ => focus,
        };
        if let Some(Delivery { target, location }) = self.inner.down(focus, event, fresh) {
            assert_eq!(target, TARGET);
            self.record.push(Delivered::Down { slot: event.slot, location });
        }
        assert!(self.inner.return_grab(grab).is_none());
    }

    fn motion(&mut self, event: &MotionEvent<Point>) {
        let fresh = self.fresh();
        let grab = match self.inner.borrow_grab(&vec![TARGET]) {
            BorrowedGrab::Default => None,
            BorrowedGrab::Active(grab) => Some(grab),
            BorrowedGrab::Dead(_) => unreachable!(),
        };
        if grab.as_ref().map(|grab| grab.handler) != Some(Grab::DroppingMotion) {
            if let Some(Delivery { target, location }) = self.inner.motion(event, fresh) {
                assert_eq!(target, TARGET);
                self.record.push(Delivered::Motion { slot: event.slot, location });
            }
        }
        assert!(self.inner.return_grab(grab).is_none());
    }

    fn up(&mut self, event: &UpEvent) -> Option<u64> {
        let fresh = self.fresh();
        self.inner.up(event, fresh)
    }

    fn frame(&mut self) -> Option<FrameDelivery> {
        self.inner.frame()
    }

    fn delivered_for(&self, slot: u32) -> Option<(u64, Point)> {
        self.inner.slot(TouchSlot::from(Some(slot))).and_then(|state| state.delivered)
    }
}

fn down_event(slot: u32, location: Point) -> DownEvent<Point> {
    DownEvent { slot: Some(slot).into(), location, serial: 1, time: 0 }
}

fn motion_event(slot: u32, location: Point) -> MotionEvent<Point> {
    MotionEvent { slot: Some(slot).into(), location, time: 0 }
}

fn up_event(slot: u32) -> UpEvent {
    UpEvent { slot: Some(slot).into(), serial: 2, time: 0 }
}

/// A view whose origins depend on where one looks: the origin at `location` is
/// `base + location * k`.
fn origin_at(base: Point, location: Point, k: f64) -> Point {
    (base.x + location.x * k, base.y + location.y * k).into()
}

#[test]
fn second_touch_down_uses_its_own_origin_not_the_first_fingers() {
    let mut touch = Touch::new();

    let base: Point = (0.0, 0.0).into();
    let k = 0.5;

    let first_location: Point = (100.0, 100.0).into();
    let first_origin = origin_at(base, first_location, k);
    touch.set_grab(
        Grab::Pinning,
        GrabStartData {
            focus: Some((TARGET, first_origin)),
            slot: Some(0).into(),
            location: first_location,
        },
    );
    touch.down(Some((TARGET, first_origin)), &down_event(0, first_location));
    touch.frame();
    assert_eq!(
        touch.take(),
        vec![Delivered::Down {
            slot: Some(0).into(),
            location: first_location - first_origin,
        }],
        "finger 1 is delivered against its own origin"
    );

    let second_location: Point = (300.0, 200.0).into();
    let second_origin = origin_at(base, second_location, k);
    assert_ne!(
        first_origin, second_origin,
        "the test is vacuous if the origins match"
    );

    touch.inner.with_grab_origin(|t| {
        assert_eq!(t, TARGET);
        Some(second_origin)
    });
    touch.down(Some((TARGET, second_origin)), &down_event(1, second_location));
    touch.frame();

    assert_eq!(
        touch.take(),
        vec![Delivered::Down {
            slot: Some(1).into(),
            location: second_location - second_origin,
        }],
        "finger 2 is delivered against the origin resolved at ITS OWN location, \
         not the one baked when finger 1 pressed"
    );
}

#[test]
fn slot_origins_refresh_independently_per_slot() {
    let mut touch = Touch::new();

    let base: Point = (10.0, 10.0).into();
    let k = 0.5;

    let a_down: Point = (100.0, 100.0).into();
    let b_down: Point = (400.0, 300.0).into();
    touch.down(Some((TARGET, origin_at(base, a_down, k))), &down_event(0, a_down));
    touch.down(Some((TARGET, origin_at(base, b_down, k))), &down_event(1, b_down));
    touch.frame();
    let _ = touch.take();

    let a_moved: Point = (150.0, 120.0).into();
    let b_moved: Point = (380.0, 340.0).into();
    let locations = [
        (TouchSlot::from(Some(0)), a_moved),
        (TouchSlot::from(Some(1)), b_moved),
    ];

    touch.inner.with_slot_origins(|slot, t, _, _| {
        assert_eq!(t, TARGET);
        let location = locations
            .iter()
            .find(|(s, _)| *s == slot)
            .map(|(_, l)| *l)
            .unwrap();
        Some(origin_at(base, location, k))
    });

    touch.motion(&motion_event(0, a_moved));
    touch.motion(&motion_event(1, b_moved));
    touch.frame();

    let a_origin = origin_at(base, a_moved, k);
    let b_origin = origin_at(base, b_moved, k);
    assert_ne!(
        a_origin, b_origin,
        "the test is vacuous if both slots share an origin"
    );
    assert_eq!(
        touch.take(),
        vec![
            Delivered::Motion {
                slot: Some(0).into(),
                location: a_moved - a_origin,
            },
            Delivered::Motion {
                slot: Some(1).into(),
                location: b_moved - b_origin,
            },
        ],
        "each slot is delivered against the origin resolved at its own location"
    );
}

#[test]
fn tests_returning_none_preserves_the_stored_origin() {
    let mut touch = Touch::new();

    let origin: Point = (25.0, 25.0).into();
    let location: Point = (100.0, 100.0).into();
    touch.down(Some((TARGET, origin)), &down_event(0, location));
    touch.frame();
    let _ = touch.take();

    let saw_target = Cell::new(false);
    touch.inner.with_slot_origins(|_, seen_target, current_origin, delivered| {
        saw_target.set(true);
        assert_eq!(seen_target, TARGET);
        assert_eq!(current_origin, origin);
        assert_eq!(delivered, Some((TARGET, location - origin)));
        None
    });
    assert!(saw_target.get(), "the callback still sees the live slot");

    let moved: Point = (140.0, 130.0).into();
    touch.motion(&motion_event(0, moved));
    touch.frame();

    assert_eq!(
        touch.take(),
        vec![Delivered::Motion {
            slot: Some(0).into(),
            location: moved - origin,
        }],
        "the origin is untouched when the callback declines to resolve one"
    );
}

#[test]
fn tests_grab_origin_refresh_is_a_noop_without_a_grab() {
    let mut touch = Touch::new();

    let called = Cell::new(false);
    touch.inner.with_grab_origin(|_| {
        called.set(true);
        None
    });
    assert!(
        !called.get(),
        "no grab means no pinned origin, so the callback never runs"
    );

    let location: Point = (10.0, 10.0).into();
    touch.down(Some((TARGET, (0.0, 0.0).into())), &down_event(0, location));
    touch.frame();
}

#[test]
fn delivered_record_tracks_down_and_forwarded_motion() {
    let mut touch = Touch::new();
    let origin: Point = (10.0, 20.0).into();
    let down_location: Point = (40.0, 70.0).into();

    touch.down(Some((TARGET, origin)), &down_event(0, down_location));
    assert_eq!(
        touch.delivered_for(0),
        Some((TARGET, down_location - origin)),
        "down records the same surface-local point handed to the target"
    );
    assert!(touch.inner.has_pending_frame(), "a delivered down owes a frame");
    touch.frame();
    assert!(!touch.inner.has_pending_frame(), "frame clears the pending marker");

    let motion_location: Point = (55.0, 95.0).into();
    touch.motion(&motion_event(0, motion_location));
    assert_eq!(
        touch.delivered_for(0),
        Some((TARGET, motion_location - origin)),
        "a forwarded motion advances the record to the delivered point"
    );
    assert!(
        touch.inner.has_pending_frame(),
        "a forwarded motion sets the pending frame marker"
    );
}

#[test]
fn delivered_record_ignores_motion_dropped_by_a_grab() {
    let mut touch = Touch::new();
    let origin: Point = (10.0, 20.0).into();
    let location: Point = (40.0, 70.0).into();

    touch.set_grab(
        Grab::DroppingMotion,
        GrabStartData { focus: Some((TARGET, origin)), slot: Some(0).into(), location },
    );
    touch.down(Some((TARGET, origin)), &down_event(0, location));
    touch.frame();
    let delivered = touch.delivered_for(0);

    touch.motion(&motion_event(0, (80.0, 90.0).into()));
    assert_eq!(
        touch.delivered_for(0),
        delivered,
        "a swallowed motion must not advance delivered state"
    );
    assert!(
        !touch.inner.has_pending_frame(),
        "a swallowed motion does not create a frame marker"
    );
}

#[test]
fn delivered_record_clears_when_up_consumes_the_live_focus() {
    let mut touch = Touch::new();
    let location: Point = (40.0, 70.0).into();

    touch.down(Some((TARGET, (10.0, 20.0).into())), &down_event(0, location));
    assert!(touch.delivered_for(0).is_some());
    assert_eq!(touch.up(&up_event(0)), Some(TARGET));
    assert_eq!(touch.delivered_for(0), None);
}

#[test]
fn delivered_record_clears_when_cancel_consumes_the_live_focus() {
    let mut touch = Touch::new();
    let location: Point = (40.0, 70.0).into();

    touch.down(Some((TARGET, (10.0, 20.0).into())), &down_event(0, location));
    assert!(touch.delivered_for(0).is_some());
    touch.inner.cancel();
    assert_eq!(touch.delivered_for(0), None);
}

#[test]
fn forget_slot_delivery_clears_a_grab_bypassed_slot() {
    let mut touch = Touch::new();
    let location: Point = (40.0, 70.0).into();

    touch.down(Some((TARGET, (10.0, 20.0).into())), &down_event(0, location));
    assert!(touch.delivered_for(0).is_some());
    touch.inner.forget_slot_delivery(Some(0).into());
    assert_eq!(touch.delivered_for(0), None);
}

#[test]
fn reused_slot_starts_without_the_previous_fingers_delivery() {
    let mut touch = Touch::new();
    let location: Point = (40.0, 70.0).into();

    touch.down(Some((TARGET, (10.0, 20.0).into())), &down_event(0, location));
    assert!(touch.delivered_for(0).is_some());

    touch.inner.slots[0].1.focus = None;
    touch.inner.unset_grab();
    touch.down(None, &down_event(0, (80.0, 90.0).into()));

    assert_eq!(
        touch.delivered_for(0),
        None,
        "down resets a reused slot even when the new finger resolves no focus"
    );
}

#[test]
fn a_frame_is_told_once_to_each_target_that_owes_it() {
    let mut touch = Touch::new();
    touch.down(Some((TARGET, (0.0, 0.0).into())), &down_event(0, (1.0, 1.0).into()));
    touch.down(None, &down_event(1, (2.0, 2.0).into()));
    let delivery = touch.frame().expect("events were sent");
    assert_eq!(delivery.targets, vec![TARGET]);
    assert!(owes_delivery(None, delivery.marker));
    assert!(!owes_delivery(Some(delivery.marker), delivery.marker));
    assert!(owes_delivery(Some(FrameMarker { id: 99 }), delivery.marker));
    assert!(touch.frame().is_none(), "nothing happened since");

    touch.up(&up_event(0));
    assert_eq!(touch.frame().expect("an up owes a frame").targets, vec![TARGET]);
    touch.motion(&motion_event(0, (3.0, 3.0).into()));
    assert!(touch.frame().expect("the motion began a frame").targets.is_empty());
}

#[test]
fn cancel_needs_a_frame_under_way_and_cancel_all_does_not() {
    let mut touch = Touch::new();
    touch.down(Some((TARGET, (0.0, 0.0).into())), &down_event(0, (1.0, 1.0).into()));
    let fresh = touch.fresh();
    touch.inner.down(Some((5, (0.0, 0.0).into())), &down_event_for_other(), fresh);
    touch.frame();
    assert!(touch.inner.cancel().is_none());
    assert!(touch.delivered_for(0).is_some(), "the touch points live on");

    let fresh = touch.fresh();
    touch.inner.up(&up_event(0), fresh);
    touch.inner.set_grab(ActiveGrab {
        serial: 3,
        start_data: GrabStartData { focus: None, slot: Some(0).into(), location: (0.0, 0.0).into() },
        handler: Grab::Pinning,
    });
    assert!(touch.inner.has_grab(3) && !touch.inner.has_grab(4));
    let fresh = touch.fresh();
    let delivery = touch.inner.cancel_all(fresh);
    assert_eq!(delivery.cancelled, vec![5]);
    assert_eq!(delivery.frames, vec![TARGET]);
    assert_eq!(delivery.unset.map(|grab| grab.serial), Some(3));
    assert!(!touch.inner.is_grabbed() && !touch.inner.has_pending_frame());
    assert!(touch.inner.slots.is_empty());
}

#[test]
fn nothing_is_sent_of_a_cancelled_session_until_a_new_down() {
    let mut touch = Touch::new();
    touch.down(Some((TARGET, (0.0, 0.0).into())), &down_event(0, (1.0, 1.0).into()));
    touch.frame();
    let fresh = touch.fresh();
    touch.inner.down(Some((5, (0.0, 0.0).into())), &down_event(1, (2.0, 2.0).into()), fresh);
    let delivery = touch.inner.cancel().expect("a frame is under way");
    assert_eq!(delivery.targets, vec![TARGET, 5], "also those that were told of their events");
    touch.motion(&motion_event(0, (3.0, 3.0).into()));
    touch.motion(&motion_event(1, (4.0, 4.0).into()));
    assert_eq!((touch.delivered_for(0), touch.delivered_for(1)), (None, None));
    assert!(touch.frame().expect("the motions began a frame").targets.is_empty());
    touch.down(Some((TARGET, (0.0, 0.0).into())), &down_event(1, (2.0, 2.0).into()));
    assert_eq!(touch.frame().expect("a new touch point").targets, vec![TARGET]);
}

fn down_event_for_other() -> DownEvent<Point> {
    DownEvent { slot: TouchSlot::from(None), location: (9.0, 9.0).into(), serial: 1, time: 0 }
}

impl Touch {
    fn dead_grab(&mut self) -> bool {
        matches!(self.inner.borrow_grab(&vec![]), BorrowedGrab::Dead(_))
    }
}

#[test]
fn a_grab_whose_target_is_gone_is_dropped() {
    let mut touch = Touch::new();
    touch.set_grab(
        Grab::Pinning,
        GrabStartData { focus: Some((TARGET, (0.0, 0.0).into())), slot: Some(0).into(), location: (0.0, 0.0).into() },
    );
    assert_eq!(touch.inner.grab_start_data().and_then(|data| data.focus), Some((TARGET, (0.0, 0.0).into())));
    assert!(touch.dead_grab());
    assert!(!touch.inner.is_grabbed());
}

#[test]
fn a_grab_that_was_replaced_while_running_is_not_put_back() {
    let mut inner: TouchInternal<PixelPoint, u8> = TouchInternal::new();
    let start_data = GrabStartData {
        focus: None,
        slot: TouchSlot::from(None),
        location: PixelPoint::from((0, 0)),
    };
    inner.set_grab(ActiveGrab { serial: 1, start_data, handler: 1 });
    let running = match inner.borrow_grab(&vec![]) {
        BorrowedGrab::Active(grab) => grab,
        _ => unreachable!(),
    };
    assert!(inner.is_grabbed());
    inner.set_grab(ActiveGrab { serial: 2, start_data, handler: 2 });
    let dropped = inner.return_grab(Some(running)).expect("the running grab was replaced");
    assert_eq!(dropped.handler, 1);
    assert!(inner.has_grab(2));
}

#[test]
fn shape_and_orientation_reach_the_focus() {
    let mut touch = Touch::new();
    assert_eq!(touch.inner.shape(Some(0).into(), FrameMarker { id: 50 }), None);
    touch.frame();
    touch.down(Some((TARGET, (0.0, 0.0).into())), &down_event(0, (1.0, 1.0).into()));
    touch.frame();
    assert_eq!(touch.inner.shape(Some(0).into(), FrameMarker { id: 51 }), Some(TARGET));
    assert_eq!(touch.inner.orientation(Some(0).into(), FrameMarker { id: 52 }), Some(TARGET));
    let delivery = touch.frame().expect("a frame is owed");
    assert_eq!(delivery.marker, FrameMarker { id: 51 });
    assert_eq!(delivery.targets, vec![TARGET]);
}
