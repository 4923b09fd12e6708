//! Input from emulated devices: what the requests of a sender client mean.

use vstd::prelude::*;
use crate::float::F32;
use crate::geometry::Rectangle;

verus! {

/// A request of a client. `E` is what came with it.
#[derive(Debug)]
pub enum EiRequest<E> {
    Disconnect,
    /// The client asks for the devices of a seat with some capabilities.
    Bind { seat: u64, capabilities: u64 },
    DeviceClosed { device: u64 },
    RequestDevice(E),
    Ready(E),
    /// Operations of a device that belong together end here.
    Frame { event: E, device_has_touch: bool },
    DeviceStartEmulating(E),
    DeviceStopEmulating(E),
    PointerMotion(E),
    PointerMotionAbsolute(E),
    Button(E),
    ScrollDelta(E),
    ScrollStop(E),
    ScrollCancel(E),
    ScrollDiscrete(E),
    KeyboardKey(E),
    TouchDown(E),
    TouchUp(E),
    TouchMotion(E),
    TouchCancel(E),
    TouchscreenReleased(E),
    TextKeysym(E),
    TextUtf8(E),
}

/// How something is scrolled.
#[derive(Debug)]
pub enum ScrollEvent<E> {
    Delta(E),
    Stop(E),
    Cancel(E),
    Discrete(E),
}

/// An event that only emulated devices have.
#[derive(Debug)]
pub enum EiSpecialEvent<E> {
    /// The device stops emulating.
    StopEmulating(E),
    /// The touchscreen of a device was released.
    TouchscreenReleased(E),
}

/// An input event for the compositor.
#[derive(Debug)]
pub enum InputEvent<E> {
    DeviceAdded { device: u64 },
    DeviceRemoved { device: u64 },
    Keyboard { event: E },
    PointerMotion { event: E },
    PointerMotionAbsolute { event: E },
    PointerButton { event: E },
    PointerAxis { event: ScrollEvent<E> },
    TouchDown { event: E },
    TouchUp { event: E },
    TouchMotion { event: E },
    TouchCancel { event: E },
    TouchFrame { event: E },
    Special(EiSpecialEvent<E>),
}

/// The input event that a request stands for.
///
/// A frame ends what a device queued, and only touch has an equivalent: frames of other devices
/// carry nothing. Requests about the connection and its devices are no input.
pub open spec fn converted<E>(request: EiRequest<E>) -> Option<InputEvent<E>> {
    match request {
        EiRequest::KeyboardKey(event) => Some(InputEvent::Keyboard { event }),
        EiRequest::PointerMotion(event) => Some(InputEvent::PointerMotion { event }),
        EiRequest::PointerMotionAbsolute(event) => Some(
            InputEvent::PointerMotionAbsolute { event },
        ),
        EiRequest::Button(event) => Some(InputEvent::PointerButton { event }),
        EiRequest::ScrollDelta(event) => Some(
            InputEvent::PointerAxis { event: ScrollEvent::Delta(event) },
        ),
        EiRequest::ScrollStop(event) => Some(
            InputEvent::PointerAxis { event: ScrollEvent::Stop(event) },
        ),
        EiRequest::ScrollCancel(event) => Some(
            InputEvent::PointerAxis { event: ScrollEvent::Cancel(event) },
        ),
        EiRequest::ScrollDiscrete(event) => Some(
            InputEvent::PointerAxis { event: ScrollEvent::Discrete(event) },
        ),
        EiRequest::TouchDown(event) => Some(InputEvent::TouchDown { event }),
        EiRequest::TouchUp(event) => Some(InputEvent::TouchUp { event }),
        EiRequest::TouchMotion(event) => Some(InputEvent::TouchMotion { event }),
        EiRequest::TouchCancel(event) => Some(InputEvent::TouchCancel { event }),
        EiRequest::Frame { event, device_has_touch } => if device_has_touch {
            Some(InputEvent::TouchFrame { event })
        } else {
            None
        },
        EiRequest::DeviceStopEmulating(event) => Some(
            InputEvent::Special(EiSpecialEvent::StopEmulating(event)),
        ),
        EiRequest::TouchscreenReleased(event) => Some(
            InputEvent::Special(EiSpecialEvent::TouchscreenReleased(event)),
        ),
        _ => None,
    }
}

pub fn convert_request<E>(request: EiRequest<E>) -> (r: Option<InputEvent<E>>)
    ensures
        r == converted(request),
{
    match request {
        EiRequest::KeyboardKey(event) => Some(InputEvent::Keyboard { event }),
        EiRequest::PointerMotion(event) => Some(InputEvent::PointerMotion { event }),
        EiRequest::PointerMotionAbsolute(event) => Some(
            InputEvent::PointerMotionAbsolute { event },
        ),
        EiRequest::Button(event) => Some(InputEvent::PointerButton { event }),
        EiRequest::ScrollDelta(event) => Some(
            InputEvent::PointerAxis { event: ScrollEvent::Delta(event) },
        ),
        EiRequest::ScrollStop(event) => Some(
            InputEvent::PointerAxis { event: ScrollEvent::Stop(event) },
        ),
        EiRequest::ScrollCancel(event) => Some(
            InputEvent::PointerAxis { event: ScrollEvent::Cancel(event) },
        ),
        EiRequest::ScrollDiscrete(event) => Some(
            InputEvent::PointerAxis { event: ScrollEvent::Discrete(event) },
        ),
        EiRequest::TouchDown(event) => Some(InputEvent::TouchDown { event }),
        EiRequest::TouchUp(event) => Some(InputEvent::TouchUp { event }),
        EiRequest::TouchMotion(event) => Some(InputEvent::TouchMotion { event }),
        EiRequest::TouchCancel(event) => Some(InputEvent::TouchCancel { event }),
        EiRequest::Frame { event, device_has_touch } => if device_has_touch {
            Some(InputEvent::TouchFrame { event })
        } else {
            None
        },
        EiRequest::DeviceStopEmulating(event) => Some(
            InputEvent::Special(EiSpecialEvent::StopEmulating(event)),
        ),
        EiRequest::TouchscreenReleased(event) => Some(
            InputEvent::Special(EiSpecialEvent::TouchscreenReleased(event)),
        ),
        EiRequest::DeviceClosed { device: _ } => None,
        EiRequest::Disconnect => None,
        EiRequest::Bind { seat: _, capabilities: _ } => None,
        EiRequest::RequestDevice(_) => None,
        EiRequest::Ready(_) => None,
        EiRequest::DeviceStartEmulating(_) => None,
        EiRequest::TextKeysym(_) => None,
        EiRequest::TextUtf8(_) => None,
    }
}

/// An event produced by an emulated input connection.
#[derive(Debug)]
pub enum EiInputEvent<E> {
    /// The client has finished the handshake. Seats and devices can then be added.
    Connected,
    /// The client has disconnected from the server.
    Disconnected,
    /// An input event has been received from the client.
    Event(InputEvent<E>),
}

/// What comes from a client.
#[derive(Debug)]
pub enum SourceEvent<E> {
    /// The handshake is over. A receiver wants events, a sender sends them.
    Connected { is_receiver: bool },
    Request(EiRequest<E>),
    /// The client broke the protocol.
    Error,
}

/// Something to be done about a client.
#[derive(Debug)]
pub enum EiAction<E> {
    /// Hand an event to the compositor.
    Emit(EiInputEvent<E>),
    /// Tell the client that it is disconnected.
    SendDisconnected,
    /// Make the devices of a seat that match the capabilities.
    BindSeat { seat: u64, capabilities: u64 },
    /// Complete the teardown of a device, on whichever seat owns it.
    CloseDevice { device: u64 },
    /// Send what is buffered.
    Flush,
}

/// Whether the client stays.
#[derive(Clone, Copy, Debug, PartialEq, Eq, Structural)]
pub enum PostAction {
    Continue,
    Remove,
}

/// The connection of a sender client.
pub struct EiInputConnection {
    pub seats: Vec<u64>,
}

/// What is to be done, in this order.
pub struct Response<E> {
    pub actions: Vec<EiAction<E>>,
    pub post: PostAction,
}

pub open spec fn actions_for<E>(seats: Seq<u64>, event: SourceEvent<E>) -> Seq<EiAction<E>> {
    match event {
        SourceEvent::Connected { is_receiver } => if is_receiver {
            seq![EiAction::SendDisconnected, EiAction::Flush]
        } else {
            seq![EiAction::Emit(EiInputEvent::Connected), EiAction::Flush]
        },
        SourceEvent::Request(EiRequest::Disconnect) => {
            seq![EiAction::Emit(EiInputEvent::Disconnected)]
        },
        SourceEvent::Request(EiRequest::Bind { seat, capabilities }) => if seats.contains(seat) {
            seq![EiAction::BindSeat { seat, capabilities }, EiAction::Flush]
        } else {
            seq![EiAction::Flush]
        },
        SourceEvent::Request(EiRequest::DeviceClosed { device }) => {
            seq![
                EiAction::Emit(EiInputEvent::Event(InputEvent::DeviceRemoved { device })),
                EiAction::CloseDevice { device },
                EiAction::Flush,
            ]
        },
        SourceEvent::Request(request) => match converted(request) {
            Some(input) => seq![EiAction::Emit(EiInputEvent::Event(input)), EiAction::Flush],
            None => seq![EiAction::Flush],
        },
        SourceEvent::Error => seq![EiAction::Emit(EiInputEvent::Disconnected)],
    }
}

pub open spec fn post_for<E>(event: SourceEvent<E>) -> PostAction {
    match event {
        SourceEvent::Connected { is_receiver } => if is_receiver {
            PostAction::Remove
        } else {
            PostAction::Continue
        },
        SourceEvent::Request(EiRequest::Disconnect) => PostAction::Remove,
        SourceEvent::Request(_) => PostAction::Continue,
        SourceEvent::Error => PostAction::Remove,
    }
}

impl EiInputConnection {
    pub fn new() -> (r: EiInputConnection)
        ensures
            r.seats@.len() == 0,
    {
        EiInputConnection { seats: Vec::new() }
    }

    /// Add a seat to the connection
    pub fn add_seat(&mut self, seat: u64)
        ensures
            final(self).seats@ == old(self).seats@.push(seat),
    {
        self.seats.push(seat);
    }

    fn has_seat(&self, seat: u64) -> (r: bool)
        ensures
            r == self.seats@.contains(seat),
    {
        let mut i: usize = 0;
        while i < self.seats.len()
            invariant
                i <= self.seats.len(),
                forall|j: int| 0 <= j < i ==> self.seats@[j] != seat,
            decreases self.seats.len() - i,
        {
            if self.seats[i] == seat {
                assert(self.seats@[i as int] == seat);
                return true;
            }
            i = i + 1;
        }
        false
    }

    /// What is to be done about an event of the client.
    ///
    /// Only senders are served. The removal of a device is announced before it is completed, as
    /// afterwards nobody could tell what kind of device it was. A client that breaks the protocol
    /// is gone just like one that leaves.
    pub fn process_event<E>(&self, event: SourceEvent<E>) -> (r: Response<E>)
        ensures
            r.actions@ == actions_for(self.seats@, event),
            r.post == post_for(event),
    {
        let mut actions: Vec<EiAction<E>> = Vec::new();
        let ghost asked = event;
        match event {
            SourceEvent::Connected { is_receiver } => {
                if is_receiver {
                    actions.push(EiAction::SendDisconnected);
                    actions.push(EiAction::Flush);
                    assert(actions@ =~= actions_for(self.seats@, asked));
                    return Response { actions, post: PostAction::Remove };
                }
                actions.push(EiAction::Emit(EiInputEvent::Connected));
            },
            SourceEvent::Request(EiRequest::Disconnect) => {
                actions.push(EiAction::Emit(EiInputEvent::Disconnected));
                assert(actions@ =~= actions_for(self.seats@, asked));
                return Response { actions, post: PostAction::Remove };
            },
            SourceEvent::Request(EiRequest::Bind { seat, capabilities }) => {
                if self.has_seat(seat) {
                    actions.push(EiAction::BindSeat { seat, capabilities });
                }
            },
            SourceEvent::Request(EiRequest::DeviceClosed { device }) => {
                actions.push(
                    EiAction::Emit(EiInputEvent::Event(InputEvent::DeviceRemoved { device })),
                );
                actions.push(EiAction::CloseDevice { device });
            },
            SourceEvent::Request(request) => {
                if let Some(input) = convert_request(request) {
                    actions.push(EiAction::Emit(EiInputEvent::Event(input)));
                }
            },
            SourceEvent::Error => {
                actions.push(EiAction::Emit(EiInputEvent::Disconnected));
                assert(actions@ =~= actions_for(self.seats@, asked));
                return Response { actions, post: PostAction::Remove };
            },
        }
        actions.push(EiAction::Flush);
        assert(actions@ =~= actions_for(self.seats@, asked));
        Response { actions, post: PostAction::Continue }
    }
}

/// The area of an output that emulated devices can reach.
#[derive(Clone, Copy, Debug, PartialEq, Eq, Structural)]
pub struct EiRegion {
    pub offset_x: u32,
    pub offset_y: u32,
    pub width: u32,
    pub height: u32,
    pub scale: F32,
}

/// A number, or zero if it is negative.
pub open spec fn not_negative(v: i32) -> u32 {
    if v < 0 {
        0
    } else {
        v as u32
    }
}

fn clamp_negative(v: i32) -> (r: u32)
    ensures
        r == not_negative(v),
{
    if v < 0 {
        0
    } else {
        v as u32
    }
}

pub open spec fn region_of(geometry: Rectangle, scale: F32) -> EiRegion {
    EiRegion {
        offset_x: not_negative(geometry.loc.x),
        offset_y: not_negative(geometry.loc.y),
        width: not_negative(geometry.size.w),
        height: not_negative(geometry.size.h),
        scale,
    }
}

/// The regions of the outputs that are mapped, in their order.
pub open spec fn regions_of(outputs: Seq<(Option<Rectangle>, F32)>) -> Seq<EiRegion>
    decreases outputs.len(),
{
    if outputs.len() == 0 {
        Seq::empty()
    } else {
        let before = regions_of(outputs.drop_last());
        match outputs.last().0 {
            Some(geometry) => before.push(region_of(geometry, outputs.last().1)),
            None => before,
        }
    }
}

/// The area that absolute pointer and touch devices can reach, one region per mapped output.
pub fn regions(outputs: &Vec<(Option<Rectangle>, F32)>) -> (r: Vec<EiRegion>)
    ensures
        r@ == regions_of(outputs@),
{
    let mut regions: Vec<EiRegion> = Vec::new();
    let mut i: usize = 0;
    assert(outputs@.take(0) =~= Seq::empty());
    while i < outputs.len()
        invariant
            i <= outputs.len(),
            regions@ == regions_of(outputs@.take(i as int)),
        decreases outputs.len() - i,
    {
        assert(outputs@.take(i as int + 1).drop_last() =~= outputs@.take(i as int));
        let (geometry, scale) = outputs[i];
        if let Some(geometry) = geometry {
            regions.push(
                EiRegion {
                    offset_x: clamp_negative(geometry.loc.x),
                    offset_y: clamp_negative(geometry.loc.y),
                    width: clamp_negative(geometry.size.w),
                    height: clamp_negative(geometry.size.h),
                    scale,
                },
            );
        }
        i = i + 1;
    }
    assert(outputs@.take(i as int) =~= outputs@);
    regions
}

/// A device that is offered to clients.
#[derive(Clone, Copy, Debug, PartialEq, Eq, Structural)]
pub enum VirtualDevice {
    Keyboard,
    Pointer,
    PointerAbsolute,
    Touch,
}

/// The devices that are offered to a new client. Those that need a region are left out while no
/// output is mapped.
pub fn offered_devices(regions: &Vec<EiRegion>) -> (r: Vec<VirtualDevice>)
    ensures
        r@ == (if regions@.len() == 0 {
            seq![VirtualDevice::Keyboard, VirtualDevice::Pointer]
        } else {
            seq![
                VirtualDevice::Keyboard,
                VirtualDevice::Pointer,
                VirtualDevice::PointerAbsolute,
                VirtualDevice::Touch,
            ]
        }),
{
    let mut devices: Vec<VirtualDevice> = Vec::new();
    devices.push(VirtualDevice::Keyboard);
    devices.push(VirtualDevice::Pointer);
    if !regions.is_empty() {
        devices.push(VirtualDevice::PointerAbsolute);
        devices.push(VirtualDevice::Touch);
        assert(devices@ =~= seq![
            VirtualDevice::Keyboard,
            VirtualDevice::Pointer,
            VirtualDevice::PointerAbsolute,
            VirtualDevice::Touch,
        ]);
    } else {
        assert(devices@ =~= seq![VirtualDevice::Keyboard, VirtualDevice::Pointer]);
    }
    devices
}

/// A client that goes away for whatever reason is reported as disconnected, but for a receiver,
/// which never was reported as connected.
pub proof fn removed_clients_are_reported<E>(seats: Seq<u64>, event: SourceEvent<E>)
    requires
        post_for(event) == PostAction::Remove,
    ensures
        actions_for(seats, event).contains(EiAction::Emit(EiInputEvent::Disconnected)) || event
            == (SourceEvent::<E>::Connected { is_receiver: true }),
{
    if let SourceEvent::Connected { is_receiver } = event {
    } else {
        assert(actions_for(seats, event)[0] == EiAction::<E>::Emit(EiInputEvent::Disconnected));
    }
}

/// The removal of a device is announced before it is completed.
pub proof fn removal_is_announced_first<E>(seats: Seq<u64>, device: u64)
    ensures
        actions_for(seats, closing::<E>(device))[0] == (EiAction::<E>::Emit(
            EiInputEvent::Event(InputEvent::DeviceRemoved { device }),
        )),
        actions_for(seats, closing::<E>(device))[1] == (EiAction::<E>::CloseDevice { device }),
{
}

/// A device that a client closes.
pub open spec fn closing<E>(device: u64) -> SourceEvent<E> {
    SourceEvent::Request(EiRequest::DeviceClosed { device })
}

} // verus!
