use compositor_core::float::F32;
use compositor_core::geometry::{Point, Rectangle, Size};
use compositor_core::libei::{
    convert_request, offered_devices, regions, EiAction, EiInputConnection, EiInputEvent, EiRegion,
    EiRequest, EiSpecialEvent, InputEvent, PostAction, ScrollEvent, SourceEvent, VirtualDevice,
};

fn tags(connection: &EiInputConnection, event: SourceEvent<u8>) -> (Vec<&'static str>, PostAction) {
    let response = connection.process_event(event);
    let tags = response
        .actions
        .iter()
        .map(|action| match action {
            EiAction::Emit(EiInputEvent::Connected) => "connected",
            EiAction::Emit(EiInputEvent::Disconnected) => "disconnected",
            EiAction::Emit(EiInputEvent::Event(InputEvent::DeviceRemoved { .. })) => "device-removed",
            EiAction::Emit(EiInputEvent::Event(_)) => "event",
            EiAction::SendDisconnected => "send-disconnected",
            EiAction::BindSeat { .. } => "bind",
            EiAction::CloseDevice { .. } => "close",
            EiAction::Flush => "flush",
        })
        .collect();
    (tags, response.post)
}

#[test]
fn senders_are_served_and_receivers_are_not() {
    let connection = EiInputConnection::new();
    assert_eq!(
        tags(&connection, SourceEvent::Connected { is_receiver: false }),
        (vec!["connected", "flush"], PostAction::Continue)
    );
    assert_eq!(
        tags(&connection, SourceEvent::Connected { is_receiver: true }),
        (vec!["send-disconnected", "flush"], PostAction::Remove)
    );
}

#[test]
fn every_way_out_reports_a_disconnect() {
    let connection = EiInputConnection::new();
    assert_eq!(
        tags(&connection, SourceEvent::Request(EiRequest::Disconnect)),
        (vec!["disconnected"], PostAction::Remove)
    );
    assert_eq!(tags(&connection, SourceEvent::Error), (vec!["disconnected"], PostAction::Remove));
}

#[test]
fn a_closed_device_is_announced_before_it_is_torn_down() {
    let connection = EiInputConnection::new();
    assert_eq!(
        tags(&connection, SourceEvent::Request(EiRequest::DeviceClosed { device: 3 })),
        (vec!["device-removed", "close", "flush"], PostAction::Continue)
    );
}

#[test]
fn only_known_seats_are_bound() {
    let mut connection = EiInputConnection::new();
    let bind = || SourceEvent::Request(EiRequest::Bind { seat: 4, capabilities: 1 });
    assert_eq!(tags(&connection, bind()), (vec!["flush"], PostAction::Continue));
    connection.add_seat(4);
    assert_eq!(tags(&connection, bind()), (vec!["bind", "flush"], PostAction::Continue));
}

#[test]
fn requests_become_input_events() {
    assert!(matches!(convert_request(EiRequest::KeyboardKey(1)), Some(InputEvent::Keyboard { event: 1 })));
    assert!(matches!(convert_request(EiRequest::Button(2)), Some(InputEvent::PointerButton { event: 2 })));
    assert!(matches!(
        convert_request(EiRequest::ScrollStop(3)),
        Some(InputEvent::PointerAxis { event: ScrollEvent::Stop(3) })
    ));
    assert!(matches!(
        convert_request(EiRequest::DeviceStopEmulating(4)),
        Some(InputEvent::Special(EiSpecialEvent::StopEmulating(4)))
    ));
    assert!(matches!(
        convert_request(EiRequest::TouchscreenReleased(5)),
        Some(InputEvent::Special(EiSpecialEvent::TouchscreenReleased(5)))
    ));
    assert!(convert_request(EiRequest::TextUtf8(6)).is_none());
    assert!(convert_request(EiRequest::Ready(7)).is_none());
    let connection = EiInputConnection::new();
    assert_eq!(
        tags(&connection, SourceEvent::Request(EiRequest::TouchDown(8))),
        (vec!["event", "flush"], PostAction::Continue)
    );
    assert_eq!(
        tags(&connection, SourceEvent::Request(EiRequest::TextKeysym(9))),
        (vec!["flush"], PostAction::Continue)
    );
}

#[test]
fn frames_count_for_touch_devices_only() {
    let frame = |device_has_touch| convert_request(EiRequest::Frame { event: 1, device_has_touch });
    assert!(matches!(frame(true), Some(InputEvent::TouchFrame { event: 1 })));
    assert!(frame(false).is_none());
}

#[test]
fn regions_are_clamped_and_unmapped_outputs_left_out() {
    let geometry = Rectangle::new(Point::from((-5, 7)), Size::from((1920, -1)));
    let found = regions(&vec![(Some(geometry), F32::one()), (None, F32::one())]);
    assert_eq!(
        found,
        vec![EiRegion { offset_x: 0, offset_y: 7, width: 1920, height: 0, scale: F32::one() }]
    );
    assert_eq!(
        offered_devices(&found),
        vec![
            VirtualDevice::Keyboard,
            VirtualDevice::Pointer,
            VirtualDevice::PointerAbsolute,
            VirtualDevice::Touch
        ]
    );
    assert_eq!(offered_devices(&vec![]), vec![VirtualDevice::Keyboard, VirtualDevice::Pointer]);
}

/// What came with a request: the device, and a touch id or a place.
type Payload = (u64, i32, i32);

const ABS: u64 = 1;
const TOUCH: u64 = 2;

/// Hands requests to a connection as they come from a client, and tells what the compositor hears.
/// The devices that still exist are noted, as are those that existed when their removal was heard of.
struct Harness {
    connection: EiInputConnection,
    devices: Vec<u64>,
    heard: Vec<(&'static str, Payload)>,
    alive_when_removed: Vec<bool>,
    ended: bool,
}

impl Harness {
    fn connect(devices: Vec<u64>) -> Harness {
        let mut harness = Harness {
            connection: EiInputConnection::new(),
            devices,
            heard: vec![],
            alive_when_removed: vec![],
            ended: false,
        };
        harness.hand(SourceEvent::Connected { is_receiver: false });
        harness.connection.add_seat(1);
        harness.hand(SourceEvent::Request(EiRequest::Bind { seat: 1, capabilities: 0x3f }));
        harness
    }

    fn request(&mut self, request: EiRequest<Payload>) {
        self.hand(SourceEvent::Request(request));
    }

    fn frame(&mut self, device: u64) {
        self.request(EiRequest::Frame { event: (device, 0, 0), device_has_touch: device == TOUCH });
    }

    fn hand(&mut self, event: SourceEvent<Payload>) {
        assert!(!self.ended, "nothing comes from a client that is gone");
        let response = self.connection.process_event(event);
        for action in response.actions {
            match action {
                EiAction::Emit(event) => self.hear(event),
                EiAction::CloseDevice { device } => self.devices.retain(|other| *other != device),
                EiAction::BindSeat { .. } | EiAction::SendDisconnected | EiAction::Flush => {}
            }
        }
        self.ended = response.post == PostAction::Remove;
    }

    fn hear(&mut self, event: EiInputEvent<Payload>) {
        self.heard.push(match event {
            EiInputEvent::Connected => ("connected", (0, 0, 0)),
            EiInputEvent::Disconnected => ("disconnected", (0, 0, 0)),
            EiInputEvent::Event(InputEvent::DeviceRemoved { device }) => {
                self.alive_when_removed.push(self.devices.contains(&device));
                ("device-removed", (device, 0, 0))
            }
            EiInputEvent::Event(InputEvent::PointerMotionAbsolute { event }) => ("motion-absolute", event),
            EiInputEvent::Event(InputEvent::TouchDown { event }) => ("touch-down", event),
            EiInputEvent::Event(InputEvent::TouchFrame { event }) => ("touch-frame", event),
            EiInputEvent::Event(InputEvent::Special(EiSpecialEvent::StopEmulating(event))) => {
                ("stop-emulating", event)
            }
            EiInputEvent::Event(InputEvent::Special(EiSpecialEvent::TouchscreenReleased(event))) => {
                ("touchscreen-released", event)
            }
            EiInputEvent::Event(other) => panic!("unexpected {other:?}"),
        });
    }

    fn count(&self, tag: &str) -> usize {
        self.heard.iter().filter(|(other, _)| *other == tag).count()
    }
}

#[test]
fn only_touch_devices_convert_frames() {
    let mut harness = Harness::connect(vec![ABS, TOUCH]);
    harness.request(EiRequest::DeviceStartEmulating((ABS, 0, 0)));
    harness.request(EiRequest::PointerMotionAbsolute((ABS, 100, 200)));
    harness.frame(ABS);
    harness.request(EiRequest::DeviceStartEmulating((TOUCH, 0, 0)));
    harness.request(EiRequest::TouchDown((TOUCH, 30, 40)));
    harness.frame(TOUCH);
    assert_eq!(harness.count("touch-frame"), 1, "expected exactly one touch frame");
    assert!(harness.heard.contains(&("touch-frame", (TOUCH, 0, 0))));
    assert!(
        harness.heard.contains(&("motion-absolute", (ABS, 100, 200))),
        "the pointer's own operation should still convert"
    );
}

#[test]
fn stop_emulating_converts_to_a_special_event() {
    let mut harness = Harness::connect(vec![TOUCH]);
    harness.request(EiRequest::DeviceStartEmulating((TOUCH, 0, 0)));
    harness.request(EiRequest::DeviceStopEmulating((TOUCH, 0, 0)));
    assert_eq!(harness.count("stop-emulating"), 1);
}

#[test]
fn a_client_protocol_violation_reports_disconnected() {
    let mut harness = Harness::connect(vec![TOUCH]);
    harness.request(EiRequest::DeviceStartEmulating((TOUCH, 0, 0)));
    harness.hand(SourceEvent::Error);
    assert_eq!(harness.heard.last(), Some(&("disconnected", (0, 0, 0))));
    assert!(harness.ended);
}

#[test]
fn closing_a_device_with_a_live_contact_announces_the_removal_before_draining_it() {
    let mut harness = Harness::connect(vec![TOUCH]);
    harness.request(EiRequest::DeviceStartEmulating((TOUCH, 0, 0)));
    harness.request(EiRequest::TouchDown((TOUCH, 10, 10)));
    harness.frame(TOUCH);
    assert_eq!(harness.count("touch-down"), 1);
    harness.request(EiRequest::DeviceClosed { device: TOUCH });
    assert_eq!(harness.count("device-removed"), 1, "a closure should announce exactly one removal");
    assert_eq!(harness.alive_when_removed, vec![true], "announced before the device is drained");
    assert!(harness.devices.is_empty(), "the seat should not keep a device the client closed");
}

#[test]
fn releasing_the_touchscreen_keeps_the_device_and_reports_the_release() {
    let mut harness = Harness::connect(vec![TOUCH]);
    harness.request(EiRequest::DeviceStartEmulating((TOUCH, 0, 0)));
    harness.request(EiRequest::TouchDown((TOUCH, 10, 10)));
    harness.frame(TOUCH);
    harness.request(EiRequest::TouchscreenReleased((TOUCH, 0, 0)));
    assert_eq!(harness.devices, vec![TOUCH], "the device itself should survive");
    assert_eq!(harness.count("device-removed"), 0);
    assert_eq!(harness.count("touchscreen-released"), 1, "the release should be delivered");
}
