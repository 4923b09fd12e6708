//! What holds of the requests of emulated devices and what is made of them.

use vstd::prelude::*;
use crate::float::F32;
use crate::geometry::Rectangle;
use crate::libei::{
    actions_for, converted, post_for, regions_of, EiAction, EiInputEvent, EiRequest, EiSpecialEvent,
    InputEvent, PostAction, ScrollEvent, SourceEvent,
};

verus! {

/// What came with an event.
pub open spec fn payload<E>(event: InputEvent<E>) -> Option<E> {
    match event {
        InputEvent::Keyboard { event } => Some(event),
        InputEvent::PointerMotion { event } => Some(event),
        InputEvent::PointerMotionAbsolute { event } => Some(event),
        InputEvent::PointerButton { event } => Some(event),
        InputEvent::PointerAxis { event: ScrollEvent::Delta(event) } => Some(event),
        InputEvent::PointerAxis { event: ScrollEvent::Stop(event) } => Some(event),
        InputEvent::PointerAxis { event: ScrollEvent::Cancel(event) } => Some(event),
        InputEvent::PointerAxis { event: ScrollEvent::Discrete(event) } => Some(event),
        InputEvent::TouchDown { event } => Some(event),
        InputEvent::TouchUp { event } => Some(event),
        InputEvent::TouchMotion { event } => Some(event),
        InputEvent::TouchCancel { event } => Some(event),
        InputEvent::TouchFrame { event } => Some(event),
        InputEvent::Special(EiSpecialEvent::StopEmulating(event)) => Some(event),
        InputEvent::Special(EiSpecialEvent::TouchscreenReleased(event)) => Some(event),
        _ => None,
    }
}

/// What came with a request.
pub open spec fn carried<E>(request: EiRequest<E>) -> Option<E> {
    match request {
        EiRequest::RequestDevice(event) => Some(event),
        EiRequest::Ready(event) => Some(event),
        EiRequest::Frame { event, device_has_touch } => Some(event),
        EiRequest::DeviceStartEmulating(event) => Some(event),
        EiRequest::DeviceStopEmulating(event) => Some(event),
        EiRequest::PointerMotion(event) => Some(event),
        EiRequest::PointerMotionAbsolute(event) => Some(event),
        EiRequest::Button(event) => Some(event),
        EiRequest::ScrollDelta(event) => Some(event),
        EiRequest::ScrollStop(event) => Some(event),
        EiRequest::ScrollCancel(event) => Some(event),
        EiRequest::ScrollDiscrete(event) => Some(event),
        EiRequest::KeyboardKey(event) => Some(event),
        EiRequest::TouchDown(event) => Some(event),
        EiRequest::TouchUp(event) => Some(event),
        EiRequest::TouchMotion(event) => Some(event),
        EiRequest::TouchCancel(event) => Some(event),
        EiRequest::TouchscreenReleased(event) => Some(event),
        EiRequest::TextKeysym(event) => Some(event),
        EiRequest::TextUtf8(event) => Some(event),
        _ => None,
    }
}

/// An input event is of the kind of its request, and of no other, and has what came with it. Requests
/// that are no input give none.
pub proof fn requests_keep_their_kind<E>(request: EiRequest<E>)
    ensures
        converted(request) matches Some(event) ==> payload(event) == carried(request) && payload(
            event,
        ) is Some,
        request is KeyboardKey <==> (converted(request) matches Some(event) && event is Keyboard),
        request is PointerMotion <==> (converted(request) matches Some(event)
            && event is PointerMotion),
        request is PointerMotionAbsolute <==> (converted(request) matches Some(event)
            && event is PointerMotionAbsolute),
        request is Button <==> (converted(request) matches Some(event) && event is PointerButton),
        request is ScrollDelta <==> (converted(request) matches Some(
            InputEvent::PointerAxis { event },
        ) && event is Delta),
        request is ScrollStop <==> (converted(request) matches Some(
            InputEvent::PointerAxis { event },
        ) && event is Stop),
        request is ScrollCancel <==> (converted(request) matches Some(
            InputEvent::PointerAxis { event },
        ) && event is Cancel),
        request is ScrollDiscrete <==> (converted(request) matches Some(
            InputEvent::PointerAxis { event },
        ) && event is Discrete),
        request is TouchDown <==> (converted(request) matches Some(event) && event is TouchDown),
        request is TouchUp <==> (converted(request) matches Some(event) && event is TouchUp),
        request is TouchMotion <==> (converted(request) matches Some(event) && event is TouchMotion),
        request is TouchCancel <==> (converted(request) matches Some(event) && event is TouchCancel),
        (request matches EiRequest::Frame { device_has_touch, .. } && device_has_touch) <==> (
        converted(request) matches Some(event) && event is TouchFrame),
        request is DeviceStopEmulating <==> (converted(request) matches Some(
            InputEvent::Special(event),
        ) && event is StopEmulating),
        request is TouchscreenReleased <==> (converted(request) matches Some(
            InputEvent::Special(event),
        ) && event is TouchscreenReleased),
        !(converted(request) matches Some(event) && (event is DeviceAdded || event is DeviceRemoved)),
{
}

/// No two requests are taken for the same input.
pub proof fn inputs_are_told_apart<E>(a: EiRequest<E>, b: EiRequest<E>)
    requires
        converted(a) is Some,
        converted(a) == converted(b),
    ensures
        a == b,
{
    requests_keep_their_kind(a);
    requests_keep_their_kind(b);
}

/// What is reported of an event, in order.
pub open spec fn reported<E>(actions: Seq<EiAction<E>>) -> Seq<EiInputEvent<E>>
    decreases actions.len(),
{
    if actions.len() == 0 {
        Seq::empty()
    } else {
        let before = reported(actions.drop_last());
        match actions.last() {
            EiAction::Emit(event) => before.push(event),
            _ => before,
        }
    }
}

/// At most one thing is reported of each event: that a sender is there, that a client is gone, that a
/// device is going, or the input that a request stands for. Clients go when they leave or break the
/// protocol, and receivers at once. Whoever stays gets what was buffered.
pub proof fn clients_are_served<E>(seats: Seq<u64>, event: SourceEvent<E>)
    ensures
        post_for(event) == PostAction::Remove <==> (event is Error || (
        event matches SourceEvent::Connected { is_receiver } && is_receiver) || (
        event matches SourceEvent::Request(request) && request is Disconnect)),
        post_for(event) == PostAction::Continue ==> actions_for(seats, event).last()
            == EiAction::<E>::Flush,
        reported(actions_for(seats, event)) == (match event {
            SourceEvent::Connected { is_receiver } => if is_receiver {
                Seq::empty()
            } else {
                seq![EiInputEvent::Connected]
            },
            SourceEvent::Error => seq![EiInputEvent::Disconnected],
            SourceEvent::Request(EiRequest::Disconnect) => seq![EiInputEvent::Disconnected],
            SourceEvent::Request(EiRequest::DeviceClosed { device }) => {
                seq![EiInputEvent::Event(InputEvent::DeviceRemoved { device })]
            },
            SourceEvent::Request(request) => match converted(request) {
                Some(input) => seq![EiInputEvent::Event(input)],
                None => Seq::empty(),
            },
        }),
{
    reveal_with_fuel(reported, 4);
    let actions = actions_for(seats, event);
    if actions.len() > 0 {
        let one = actions.drop_last();
        if one.len() > 0 {
            let two = one.drop_last();
            if two.len() > 0 {
                assert(two.drop_last() =~= Seq::empty());
                assert(reported(two.drop_last()) =~= Seq::empty());
            } else {
                assert(two =~= Seq::empty());
            }
        } else {
            assert(one =~= Seq::empty());
        }
    }
    assert(reported(Seq::<EiAction<E>>::empty()) =~= Seq::empty());
}

/// Devices are made exactly for the seat and the capabilities that a client asks for, and only if the
/// seat is one of its own; a device is torn down exactly if the client closed it; and only a receiver
/// is told that it is disconnected.
pub proof fn requests_are_carried_out<E>(seats: Seq<u64>, event: SourceEvent<E>, i: int)
    requires
        0 <= i < actions_for(seats, event).len(),
    ensures
        actions_for(seats, event)[i] matches EiAction::BindSeat { seat, capabilities }
            ==> seats.contains(seat) && event == (SourceEvent::<E>::Request(
            EiRequest::Bind { seat, capabilities },
        )),
        event matches SourceEvent::Request(EiRequest::Bind { seat, capabilities }) ==> (
        seats.contains(seat) ==> actions_for(seats, event)[0] == (EiAction::<E>::BindSeat {
            seat,
            capabilities,
        })),
        actions_for(seats, event)[i] matches EiAction::CloseDevice { device } ==> event == (
        SourceEvent::<E>::Request(EiRequest::DeviceClosed { device })),
        event matches SourceEvent::Request(EiRequest::DeviceClosed { device })
            ==> actions_for(seats, event).contains(EiAction::<E>::CloseDevice { device }),
        actions_for(seats, event)[i] is SendDisconnected ==> (
        event matches SourceEvent::Connected { is_receiver } && is_receiver),
        event matches SourceEvent::Connected { is_receiver } ==> (is_receiver ==> actions_for(
            seats,
            event,
        )[0] is SendDisconnected && actions_for(seats, event)[1] is Flush),
{
    if let SourceEvent::Request(EiRequest::DeviceClosed { device }) = event {
        assert(actions_for(seats, event)[1] == EiAction::<E>::CloseDevice { device });
    }
}

/// Emulated devices reach the outputs that are mapped, each once and in their order, up to where
/// coordinates begin.
pub proof fn regions_are_the_mapped_outputs(outputs: Seq<(Option<Rectangle>, F32)>, i: int)
    requires
        0 <= i < outputs.len(),
    ensures
        regions_of(outputs).len() == outputs.filter(
            |output: (Option<Rectangle>, F32)| output.0 is Some,
        ).len(),
        outputs[i].0 matches Some(geometry) ==> exists|k: int|
            0 <= k <= i && k < regions_of(outputs).len() && {
                let region = #[trigger] regions_of(outputs)[k];
                &&& region.offset_x == geometry.loc.x || (region.offset_x == 0 && geometry.loc.x < 0)
                &&& region.offset_y == geometry.loc.y || (region.offset_y == 0 && geometry.loc.y < 0)
                &&& region.width == geometry.size.w || (region.width == 0 && geometry.size.w < 0)
                &&& region.height == geometry.size.h || (region.height == 0 && geometry.size.h < 0)
                &&& region.scale == outputs[i].1
                &&& k == outputs.take(i).filter(
                    |output: (Option<Rectangle>, F32)| output.0 is Some,
                ).len()
            },
    decreases outputs.len(),
{
    let mapped = |output: (Option<Rectangle>, F32)| output.0 is Some;
    let front = outputs.drop_last();
    reveal(Seq::filter);
    lemma_counts(outputs);
    lemma_counts(front);
    if i < outputs.len() - 1 {
        regions_are_the_mapped_outputs(front, i);
        assert(front[i] == outputs[i]);
        assert(front.take(i) =~= outputs.take(i));
        if let Some(geometry) = outputs[i].0 {
            let k = outputs.take(i).filter(mapped).len() as int;
            assert(regions_of(outputs)[k] == regions_of(front)[k]);
        }
    } else {
        assert(outputs.take(i) =~= front);
        if let Some(geometry) = outputs[i].0 {
            let k = regions_of(front).len() as int;
            lemma_few(front);
            assert(regions_of(outputs)[k].scale == outputs[i].1);
        }
    }
}

proof fn lemma_counts(outputs: Seq<(Option<Rectangle>, F32)>)
    ensures
        regions_of(outputs).len() == outputs.filter(
            |output: (Option<Rectangle>, F32)| output.0 is Some,
        ).len(),
    decreases outputs.len(),
{
    reveal(Seq::filter);
    if outputs.len() > 0 {
        lemma_counts(outputs.drop_last());
    }
}

proof fn lemma_few(outputs: Seq<(Option<Rectangle>, F32)>)
    ensures
        regions_of(outputs).len() <= outputs.len(),
    decreases outputs.len(),
{
    if outputs.len() > 0 {
        lemma_few(outputs.drop_last());
    }
}

} // verus!
