//! Running attempts at the legacy cursor against a device.

use vstd::prelude::*;
use crate::device::Device;
use crate::driver::draw_cursor;
use crate::legacy_attempt::{LegacyAttempt, LegacyPhase, LegacyRequest};
use crate::legacy_cursor::{LegacyCursorAssignment, LegacyCursorState};
use crate::record::{goes_on, record_is_what_was_said, records_add_up, since, Exchange, Recorded};
use crate::talk::{drawn_by, legacy_talk};

verus! {

/// Shows an element as the legacy cursor, doing whatever has to be done.
///
/// However the ioctls end: a cursor that counts as presented is the one that is installed, and the
/// cursor planes are only released if the cursor goes over to atomic frames.
pub fn try_assign_legacy_cursor<A, B, F, R, D: Device<A, B, F, R>>(
    device: &mut Recorded<A, B, F, R, D>,
    begun: LegacyAttempt,
    legacy: &mut LegacyCursorState,
) -> (r: (LegacyCursorAssignment, bool))
    requires
        old(legacy).wf(),
        begun.presents(*old(legacy)),
    ensures
        final(legacy).wf(),
        r.0 matches LegacyCursorAssignment::Presented(presentation)
            ==> final(legacy).active_presentation_spec() == Some(presentation),
        r.0 is Atomic ==> final(legacy).ownership is Atomic,
        r.1 ==> r.0 is Atomic,
        goes_on(old(device).log(), final(device).log()),
        legacy_talk(
            begun,
            *old(legacy),
            since(old(device).log(), final(device).log()),
            r,
            *final(legacy),
        ),
{
    run_legacy_attempt(device, begun, legacy)
}

/// Goes on with an attempt at the legacy cursor up to its end.
fn run_legacy_attempt<A, B, F, R, D: Device<A, B, F, R>>(
    device: &mut Recorded<A, B, F, R, D>,
    begun: LegacyAttempt,
    legacy: &mut LegacyCursorState,
) -> (r: (LegacyCursorAssignment, bool))
    requires
        old(legacy).wf(),
        begun.presents(*old(legacy)),
    ensures
        final(legacy).wf(),
        r.0 matches LegacyCursorAssignment::Presented(presentation)
            ==> final(legacy).active_presentation_spec() == Some(presentation),
        r.0 is Atomic ==> final(legacy).ownership is Atomic,
        r.1 ==> r.0 is Atomic,
        goes_on(old(device).log(), final(device).log()),
        legacy_talk(
            begun,
            *old(legacy),
            since(old(device).log(), final(device).log()),
            r,
            *final(legacy),
        ),
    decreases begun.steps_left(),
{
    let ghost start = device.log();
    let ghost before = *legacy;
    let mut attempt = begun;
    match attempt.request() {
        LegacyRequest::MoveCursor(origin) => {
            let result = device.move_cursor(origin);
            match attempt.phase {
                LegacyPhase::Move => attempt.moved(legacy, result),
                _ => attempt.installed(legacy, result),
            }
        },
        LegacyRequest::DrawCursor { element_size, plane_size } => {
            let drawn = draw_cursor(
                device,
                attempt.element,
                element_size,
                plane_size,
                attempt.output.transform,
                false,
            );
            let buffer: Option<u64> = match drawn {
                Some((buffer, _)) => Some(buffer),
                None => None,
            };
            let ghost painted = device.log();
            attempt.drawn(legacy, buffer);
            let r = run_legacy_attempt(device, attempt, legacy);
            proof {
                records_add_up(start, painted, device.log());
                let talk = since(start, device.log());
                let k = since(start, painted).len() as int;
                assert(talk.take(k) =~= since(start, painted));
                assert(talk.skip(k) =~= since(painted, device.log()));
                assert(drawn_by(begun, talk.take(k), drawn));
            }
            return r;
        },
        LegacyRequest::DisableCursor => {
            let result = device.disable_cursor();
            attempt.installed(legacy, result);
        },
        LegacyRequest::InstallCursor(buffer) => {
            let result = device.install_cursor(buffer);
            attempt.installed(legacy, result);
        },
        LegacyRequest::Finished { assignment, released } => {
            proof {
                let talk = Seq::<Exchange<A, B, F, R>>::empty();
                assert(device.log() =~= start + talk);
                record_is_what_was_said(start, talk);
            }
            return (assignment, released);
        },
    }
    let ghost asked = device.log();
    let r = run_legacy_attempt(device, attempt, legacy);
    proof {
        let first = asked.last();
        assert(asked =~= start + seq![first]);
        record_is_what_was_said(start, seq![first]);
        records_add_up(start, asked, device.log());
        let talk = since(start, device.log());
        assert(talk[0] == first);
        assert(talk.skip(1) =~= since(asked, device.log()));
    }
    r
}

} // verus!
