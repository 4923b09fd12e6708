//! Setting a compositor up.

use vstd::prelude::*;
use crate::buffer::Format;
use crate::compositor::{CompositorView, DrmCompositor, OutputModeSource, PresentationMode};
use crate::core_state::FormatTable;
use crate::device::Device;
use crate::record::{goes_on, record_is_what_was_said, records_add_up, since, Exchange, Recorded};
use crate::driver::test_frame;
use crate::error::{DrmError, FrameError};
use crate::format_probe::{FormatProbe, FormatSearch, ProbePhase};
use crate::formats::{
    any_with_code, distinct, modifiers_of, plane_candidates, renderer_candidates, shared_modifiers,
    supported_modifiers, supported_modifiers_spec, swapchain_format,
};
use crate::geometry::Size;
use crate::legacy_cursor::CursorPlanePolicy;
use crate::plane::{listed_once, sorted_by_type, PlaneInfo, PlaneType, Planes};
use crate::setup::{front_to_back, is_nvidia, parse_driver_version, planes_are_ordered, prepare_planes, FencingStep};
use crate::setup_talk::{
    candidate_talk, choice_talk, failures_are_passed_over, fencing_talk, format_talk, made,
    passed_over, searches_end_with_success, setup_talk, setups_are_their_pieces, swapchain_talk,
    trials_ask_once, Choice, Made, Trial,
};

verus! {

/// The modifiers with which the plane takes the format, of those that are allowed.
pub open spec fn usable_modifiers(
    plane_formats: Seq<Format>,
    table: FormatTable,
    code: u32,
    modifiers: Seq<u64>,
) -> Seq<u64> {
    shared_modifiers(
        modifiers_of(plane_candidates(plane_formats, code, table.opaque_or_same(code))),
        distinct(modifiers),
    )
}

/// Whether the plane takes the format only without its alpha channel.
pub open spec fn needs_opaque(plane_formats: Seq<Format>, table: FormatTable, code: u32) -> bool {
    !any_with_code(plane_candidates(plane_formats, code, table.opaque_or_same(code)), code)
}

/// Tries the new swapchain out: whether its first buffer can be shown on the primary plane.
///
/// A new swapchain that has no buffer to offer counts as exhausted.
fn test_swapchain<A, B, F, R, D: Device<A, B, F, R>>(
    device: &mut Recorded<A, B, F, R, D>,
    supports_fencing: bool,
    primary: u32,
    planes: &Planes,
    include_cursor_planes: bool,
    mode_size: Size,
    use_opaque: bool,
    Ghost(trial): Ghost<Trial>,
) -> (r: Result<bool, FrameError<A, B, F>>)
    requires
        trial.primary.handle == primary,
        trial.cursor == planes.cursor@,
        trial.overlay == planes.overlay@,
        trial.include_cursor_planes == include_cursor_planes,
        trial.mode_size == mode_size,
    ensures
        goes_on(old(device).log(), final(device).log()),
        swapchain_talk(trial, use_opaque, since(old(device).log(), final(device).log()), r),
        r is Ok ==> r->Ok_0 == use_opaque,
        r matches Err(error) ==> !(error is NoSupportedPlaneFormat)
            && !(error is NoSupportedRendererFormat),
{
    let ghost start = device.log();
    let probe = FormatProbe::begin(use_opaque, mode_size);
    let acquired = device.acquire();
    let ghost first = Exchange::<A, B, F, R>::Acquire { answer: acquired };
    let slot = match FrameError::<A, B, F>::acquired(acquired) {
        Ok(slot) => slot,
        Err(error) => {
            proof {
                reveal(swapchain_talk);
                assert(device.log() =~= start + seq![first]);
                record_is_what_was_said(start, seq![first]);
            }
            return Err(error);
        },
    };
    let probe = probe.acquired(Ok(slot));
    let exported = device.export_slot(slot);
    let ghost second = Exchange::<A, B, F, R>::ExportSlot { slot, answer: exported };
    let size = match exported {
        Ok(size) => size,
        Err(error) => {
            proof {
                reveal(swapchain_talk);
                assert(device.log() =~= start + seq![first, second]);
                record_is_what_was_said(start, seq![first, second]);
            }
            return Err(FrameError::AsDmabufError(error));
        },
    };
    let probe = probe.exported(Ok(size));
    let added = device.add_slot_framebuffer(slot, use_opaque);
    let ghost third = Exchange::<A, B, F, R>::AddSlotFramebuffer {
        slot,
        use_opaque,
        answer: added,
    };
    let fb = match FrameError::<A, B, F>::framebuffer(added) {
        Ok(fb) => fb,
        Err(error) => {
            proof {
                reveal(swapchain_talk);
                let talk = seq![first, second, third];
                assert(device.log() =~= start + talk);
                record_is_what_was_said(start, talk);
                assert(talk.skip(2) =~= seq![third]);
            }
            return Err(error);
        },
    };
    device.keep_slot_framebuffer(slot, fb);
    let ghost fourth = Exchange::<A, B, F, R>::KeepSlotFramebuffer { slot, fb };
    let probe = probe.framebuffer(Ok(Some(fb.framebuffer.info())));
    let claimed = device.claim_plane(primary);
    let ghost fifth = Exchange::<A, B, F, R>::ClaimPlane { plane: primary, answer: claimed };
    let ghost asked = seq![first, second, third, fourth, fifth];
    proof {
        assert(device.log() =~= start + asked);
        record_is_what_was_said(start, asked);
    }
    let claim = match claimed {
        Some(claim) => claim,
        None => {
            proof {
                reveal(swapchain_talk);
                assert(asked.skip(2) =~= seq![third, fourth, fifth]);
            }
            return Err(FrameError::PrimaryPlaneClaimFailed);
        },
    };
    let probe = probe.claimed(Some(claim));
    let mut frame = probe.test_frame(primary, planes, include_cursor_planes);
    let ghost ready = device.log();
    let result = test_frame(device, &mut frame, supports_fencing, true, true);
    proof {
        reveal(swapchain_talk);
        let last = since(ready, device.log());
        trials_ask_once(
            trial,
            slot,
            fb,
            size,
            claim,
            frame@,
            supports_fencing,
            last,
            result,
        );
        records_add_up(start, ready, device.log());
        let talk = asked + last;
        assert(talk.skip(2) =~= seq![third, fourth, fifth, last[0]]);
    }
    match probe.tested(result).phase {
        ProbePhase::Done(outcome) => outcome,
        _ => Err(FrameError::NoFramebuffer),
    }
}

/// What formats are tried out for, with these planes.
pub open spec fn trial_for(
    primary: PlaneInfo,
    planes: Planes,
    include_cursor_planes: bool,
    table: FormatTable,
    mode_size: Size,
) -> Trial {
    Trial {
        primary,
        cursor: planes.cursor@,
        overlay: planes.overlay@,
        include_cursor_planes,
        table,
        mode_size,
    }
}

/// Tries a format for the swapchain out. Tells whether the plane takes it only without its alpha
/// channel.
///
/// The plane has to share a modifier with those that are allowed. Everything else depends on what
/// the device answers. A swapchain that does not work is given up for the one before.
pub fn test_format<A, B, F, R, D: Device<A, B, F, R>>(
    device: &mut Recorded<A, B, F, R, D>,
    supports_fencing: bool,
    primary: &PlaneInfo,
    planes: &Planes,
    include_cursor_planes: bool,
    table: &FormatTable,
    mode_size: Size,
    code: u32,
    modifiers: &Vec<u64>,
) -> (r: Result<bool, FrameError<A, B, F>>)
    ensures
        r is Ok ==> r->Ok_0 == needs_opaque(primary.formats@, *table, code),
        r is Ok ==> usable_modifiers(primary.formats@, *table, code, modifiers@).len() > 0,
        (r matches Err(error) && error is NoSupportedPlaneFormat) <==> usable_modifiers(
            primary.formats@,
            *table,
            code,
            modifiers@,
        ).len() == 0,
        !(r matches Err(error) && error is NoSupportedRendererFormat),
        goes_on(old(device).log(), final(device).log()),
        format_talk(
            trial_for(*primary, *planes, include_cursor_planes, *table, mode_size),
            code,
            modifiers@,
            since(old(device).log(), final(device).log()),
            r,
        ),
{
    let ghost start = device.log();
    let ghost trial = trial_for(*primary, *planes, include_cursor_planes, *table, mode_size);
    let format = match swapchain_format(&primary.formats, table, code, modifiers) {
        Ok(format) => format,
        Err(error) => {
            proof {
                reveal(format_talk);
                let talk = Seq::<Exchange<A, B, F, R>>::empty();
                assert(device.log() =~= start + talk);
                record_is_what_was_said(start, talk);
            }
            return Err(error.frame_error());
        },
    };
    device.open_swapchain(mode_size, code, &format.modifiers);
    let ghost opened = device.log();
    let ghost first = Exchange::<A, B, F, R>::OpenSwapchain {
        size: mode_size,
        code,
        modifiers: format.modifiers@,
    };
    proof {
        assert(opened =~= start + seq![first]);
        record_is_what_was_said(start, seq![first]);
    }
    let tested = test_swapchain(
        device,
        supports_fencing,
        primary.handle,
        planes,
        include_cursor_planes,
        mode_size,
        format.use_opaque,
        Ghost(trial),
    );
    let ghost tried = device.log();
    let ghost trying = since(opened, tried);
    proof {
        records_add_up(start, opened, tried);
    }
    if tested.is_err() {
        device.restore_swapchain();
        proof {
            reveal(format_talk);
            let last = seq![Exchange::<A, B, F, R>::RestoreSwapchain];
            assert(device.log() =~= tried + last);
            record_is_what_was_said(tried, last);
            records_add_up(start, tried, device.log());
            let talk = seq![first] + trying + last;
            assert(talk.subrange(1, talk.len() - 1) =~= trying);
        }
    } else {
        proof {
            reveal(format_talk);
            assert((seq![first] + trying).skip(1) =~= trying);
        }
    }
    tested
}

/// Tries a format out with the modifiers that both the plane and the renderer support.
pub fn find_supported_format<A, B, F, R, D: Device<A, B, F, R>>(
    device: &mut Recorded<A, B, F, R, D>,
    supports_fencing: bool,
    primary: &PlaneInfo,
    planes: &Planes,
    include_cursor_planes: bool,
    table: &FormatTable,
    mode_size: Size,
    renderer_formats: &Vec<Format>,
    code: u32,
) -> (r: Result<bool, FrameError<A, B, F>>)
    ensures
        r is Ok ==> r->Ok_0 == needs_opaque(primary.formats@, *table, code),
        ({
            let plane = plane_candidates(primary.formats@, code, table.opaque_or_same(code));
            let renderer = renderer_candidates(renderer_formats@, code);
            &&& plane.len() == 0 ==> (r matches Err(error) && error is NoSupportedPlaneFormat)
            &&& (r matches Err(error) && error is NoSupportedRendererFormat) ==> plane.len() > 0
                && renderer.len() == 0
            &&& plane.len() > 0 && renderer.len() == 0 ==> (r matches Err(error)
                && error is NoSupportedRendererFormat)
            &&& plane.len() > 0 && renderer.len() > 0 ==> ((r matches Err(error)
                && error is NoSupportedPlaneFormat) <==> usable_modifiers(
                primary.formats@,
                *table,
                code,
                supported_modifiers_spec(plane, renderer),
            ).len() == 0)
        }),
        goes_on(old(device).log(), final(device).log()),
        candidate_talk(
            trial_for(*primary, *planes, include_cursor_planes, *table, mode_size),
            renderer_formats@,
            code,
            since(old(device).log(), final(device).log()),
            r,
        ),
{
    let ghost start = device.log();
    let modifiers = match supported_modifiers(&primary.formats, renderer_formats, table, code) {
        Ok(modifiers) => modifiers,
        Err(error) => {
            proof {
                let talk = Seq::<Exchange<A, B, F, R>>::empty();
                assert(device.log() =~= start + talk);
                record_is_what_was_said(start, talk);
            }
            return Err(error.frame_error());
        },
    };
    test_format(
        device,
        supports_fencing,
        primary,
        planes,
        include_cursor_planes,
        table,
        mode_size,
        code,
        &modifiers,
    )
}

proof fn lemma_prepared_planes(primary: PlaneInfo, before: Planes, after: Planes, is_legacy: bool)
    requires
        sorted_by_type(primary, before),
        after.cursor@ == (if is_legacy {
            Seq::empty()
        } else {
            before.cursor@
        }),
        after.overlay@ == (if is_legacy {
            Seq::empty()
        } else {
            front_to_back(before.overlay@)
        }),
    ensures
        sorted_by_type(primary, after),
        after.cursor@.len() <= before.cursor@.len(),
        after.overlay@.len() <= before.overlay@.len(),
{
    if !is_legacy {
        let sorted = front_to_back(before.overlay@);
        planes_are_ordered(before.overlay@);
        before.overlay@.to_multiset_ensures();
        sorted.to_multiset_ensures();
        lemma_listed_once(before, after);
        assert forall|i: int| 0 <= i < after.overlay@.len() implies (
        #[trigger] after.overlay@[i]).type_ == PlaneType::Overlay && after.overlay@[i].handle
            != primary.handle by {
            assert(sorted.to_multiset().contains(sorted[i]));
            assert(before.overlay@.contains(sorted[i]));
            let k = choose|k: int| 0 <= k < before.overlay@.len() && before.overlay@[k] == sorted[i];
            assert(before.overlay@[k].type_ == PlaneType::Overlay);
        }
    } else {
        reveal(listed_once);
    }
}

/// Planes in another order are still listed once.
proof fn lemma_listed_once(before: Planes, after: Planes)
    requires
        listed_once(before),
        after.cursor@ == before.cursor@,
        after.overlay@.to_multiset() == before.overlay@.to_multiset(),
    ensures
        listed_once(after),
{
    reveal(listed_once);
    let a = before.overlay@;
    let b = after.overlay@;
    a.to_multiset_ensures();
    b.to_multiset_ensures();
    assert(a.no_duplicates()) by {
        assert forall|i: int, j: int| 0 <= i < a.len() && 0 <= j < a.len() && i != j implies a[i]
            != a[j] by {
            assert(a[i].handle != a[j].handle);
        }
    }
    a.lemma_multiset_has_no_duplicates();
    b.lemma_multiset_has_no_duplicates_conv();
    assert forall|i: int| 0 <= i < b.len() implies a.contains(#[trigger] b[i]) by {
        assert(b.to_multiset().contains(b[i]));
    }
    assert forall|i: int, j: int| 0 <= i < j < b.len() implies (#[trigger] b[i]).handle != (
    #[trigger] b[j]).handle by {
        assert(a.contains(b[i]) && a.contains(b[j]));
        let k = choose|k: int| 0 <= k < a.len() && a[k] == b[i];
        let l = choose|l: int| 0 <= l < a.len() && a[l] == b[j];
        assert(b[i] != b[j]);
        assert(a[k].handle != a[l].handle);
    }
    assert forall|i: int, j: int| 0 <= i < after.cursor@.len() && 0 <= j < b.len() implies (
    #[trigger] after.cursor@[i]).handle != (#[trigger] b[j]).handle by {
        assert(a.contains(b[j]));
        let l = choose|l: int| 0 <= l < a.len() && a[l] == b[j];
        assert(before.cursor@[i].handle != a[l].handle);
    }
}

/// Finds out whether fences can be used. A legacy surface has none; of any other the driver, the
/// primary plane and, for drivers of Nvidia, the version of the kernel module have a say.
pub fn detect_fencing<A, B, F, R, D: Device<A, B, F, R>>(
    device: &mut Recorded<A, B, F, R, D>,
    primary: u32,
    is_legacy: bool,
) -> (r: Result<bool, DrmError>)
    ensures
        r matches Ok(supported) ==> (is_legacy ==> !supported),
        goes_on(old(device).log(), final(device).log()),
        fencing_talk(primary, is_legacy, since(old(device).log(), final(device).log()), r),
{
    let ghost start = device.log();
    let driver = device.driver();
    let ghost first = Exchange::<A, B, F, R>::Driver { answer: driver };
    proof {
        assert(device.log() =~= start + seq![first]);
        record_is_what_was_said(start, seq![first]);
    }
    let (name, description) = match driver {
        Ok(driver) => driver,
        Err(error) => {
            proof {
                reveal(fencing_talk);
            }
            return Err(error);
        },
    };
    let nvidia = is_nvidia(name.as_str(), description.as_str());
    if let FencingStep::Done(supported) = FencingStep::start(is_legacy) {
        proof {
            reveal(fencing_talk);
        }
        return Ok(supported);
    }
    let capability = device.syncobj_capability();
    let ghost second = Exchange::<A, B, F, R>::SyncobjCapability { answer: capability };
    proof {
        assert(device.log() =~= start + seq![first, second]);
        record_is_what_was_said(start, seq![first, second]);
        assert(seq![first, second].skip(1) =~= seq![second]);
    }
    let value: u64 = match capability {
        Ok(value) => value,
        Err(error) => {
            proof {
                reveal(fencing_talk);
            }
            return Err(error);
        },
    };
    if let FencingStep::Done(supported) = FencingStep::after_capability(value) {
        proof {
            reveal(fencing_talk);
        }
        return Ok(supported);
    }
    let taken = device.takes_fences(primary);
    let ghost third = Exchange::<A, B, F, R>::TakesFences { plane: primary, answer: taken };
    proof {
        let talk = seq![first, second, third];
        assert(device.log() =~= start + talk);
        record_is_what_was_said(start, talk);
        assert(talk.skip(1) =~= seq![second, third]);
        assert(talk.skip(1).skip(1) =~= seq![third]);
    }
    let present = match taken {
        Ok(present) => present,
        Err(error) => {
            proof {
                reveal(fencing_talk);
            }
            return Err(error);
        },
    };
    let mut version: Option<(u32, u32, u32)> = None;
    if present && nvidia {
        let text = device.driver_version();
        let ghost fourth = Exchange::<A, B, F, R>::DriverVersion { answer: text };
        proof {
            let talk = seq![first, second, third, fourth];
            assert(device.log() =~= start + talk);
            record_is_what_was_said(start, talk);
            assert(talk.skip(1) =~= seq![second, third, fourth]);
            assert(talk.skip(1).skip(1) =~= seq![third, fourth]);
        }
        if let Some(text) = text {
            version = parse_driver_version(text.as_str());
        }
    }
    proof {
        reveal(fencing_talk);
    }
    match FencingStep::after_property(present, nvidia, version) {
        FencingStep::Done(supported) => Ok(supported),
        _ => Ok(false),
    }
}

/// What a new compositor looks like: it shows nothing, and its first frame names all planes.
pub open spec fn is_new<U>(
    c: CompositorView<U>,
    primary: PlaneInfo,
    planes: Planes,
    is_legacy: bool,
    cursor_size: Size,
    policy: CursorPlanePolicy,
    has_cursor: bool,
    output_mode_source: OutputModeSource,
) -> bool {
    &&& c.core.wf()
    &&& c.core.primary == primary
    &&& c.core.planes.cursor@ == (if is_legacy {
        Seq::empty()
    } else {
        planes.cursor@
    })
    &&& c.core.planes.overlay@ == (if is_legacy {
        Seq::empty()
    } else {
        front_to_back(planes.overlay@)
    })
    &&& c.core.cursor_size == cursor_size
    &&& c.core.policy == policy
    &&& c.core.cursor.is_some() == has_cursor
    &&& c.core.states == Map::<u64, crate::element_states::ElementStateView>::empty()
    &&& c.output_mode_source == output_mode_source
    &&& c.reset_pending
    &&& c.presentation_mode == PresentationMode::Vsync
    &&& c.pending is None
    &&& c.queued is None
    &&& c.next is None
    &&& forall|handle: u32| !#[trigger] crate::frame_state::assigned(c.current, handle)
    &&& is_legacy ==> !c.supports_fencing
}

/// What formats are tried out for while a compositor is set up.
pub open spec fn setup_trial(
    primary: PlaneInfo,
    planes: Planes,
    is_legacy: bool,
    policy: CursorPlanePolicy,
    table: FormatTable,
    mode_size: Size,
) -> Trial {
    Trial {
        primary,
        cursor: if is_legacy {
            Seq::empty()
        } else {
            planes.cursor@
        },
        overlay: if is_legacy {
            Seq::empty()
        } else {
            front_to_back(planes.overlay@)
        },
        include_cursor_planes: !policy.reserves_spec(),
        table,
        mode_size,
    }
}

/// What came of a setup: what the new compositor has from the device, or why there is none.
pub open spec fn setup_result<A, B, F, U>(r: Result<DrmCompositor<U>, FrameError<A, B, F>>) -> Result<
    Made,
    FrameError<A, B, F>,
> {
    match r {
        Ok(compositor) => Ok(made(compositor@)),
        Err(error) => Err(error),
    }
}

proof fn lemma_idle_frames_show_nothing(
    frame: Seq<(u32, crate::plane::PlaneState)>,
    handle: u32,
)
    requires
        forall|i: int| 0 <= i < frame.len() ==> (#[trigger] frame[i]).1.config is None,
    ensures
        !crate::frame_state::assigned(frame, handle),
{
    crate::frame_state::index_is_the_first_entry(frame, handle);
}

/// A setup is complete once an id was taken for the new compositor.
proof fn lemma_completed<A, B, F, R>(
    start: Seq<Exchange<A, B, F, R>>,
    fenced: Seq<Exchange<A, B, F, R>>,
    tested: Seq<Exchange<A, B, F, R>>,
    end: Seq<Exchange<A, B, F, R>>,
    trial: Trial,
    choice: Choice,
    is_legacy: bool,
    first: Seq<Exchange<A, B, F, R>>,
    asked: Seq<Exchange<A, B, F, R>>,
    made: Made,
)
    requires
        goes_on(start, fenced),
        goes_on(fenced, tested),
        first == seq![Exchange::<A, B, F, R>::SignaledFence { answer: made.signaled_fence }],
        since(start, fenced) == first + asked,
        fencing_talk(
            trial.primary.handle,
            is_legacy,
            asked,
            Ok::<bool, DrmError>(made.supports_fencing),
        ),
        choice_talk(
            trial,
            choice,
            since(fenced, tested),
            Ok::<bool, FrameError<A, B, F>>(made.primary_is_opaque),
        ),
        end == tested.push(Exchange::FreshId { answer: made.primary_plane_element_id }),
    ensures
        goes_on(start, end),
        setup_talk(
            trial,
            choice,
            is_legacy,
            since(start, end),
            Ok::<Made, FrameError<A, B, F>>(made),
        ),
{
    let last = seq![
        Exchange::<A, B, F, R>::FreshId { answer: made.primary_plane_element_id },
    ];
    assert(end =~= tested + last);
    record_is_what_was_said(tested, last);
    records_add_up(fenced, tested, end);
    records_add_up(start, fenced, end);
    let tried = since(fenced, tested) + last;
    assert(tried.drop_last() =~= since(fenced, tested));
    setups_are_their_pieces(
        trial,
        choice,
        is_legacy,
        made.signaled_fence,
        asked,
        Ok::<bool, DrmError>(made.supports_fencing),
        tried,
        Ok::<Made, FrameError<A, B, F>>(made),
    );
}

impl<U> DrmCompositor<U> {
    /// Puts a compositor together once its format is known.
    fn assemble<A, B, F, R, D: Device<A, B, F, R>>(
        device: &mut Recorded<A, B, F, R, D>,
        primary: PlaneInfo,
        planes: Planes,
        table: FormatTable,
        cursor_size: Size,
        policy: CursorPlanePolicy,
        has_cursor: bool,
        signaled_fence: Option<u64>,
        supports_fencing: bool,
        is_opaque: bool,
        output_mode_source: OutputModeSource,
        Ghost(given): Ghost<Planes>,
        Ghost(is_legacy): Ghost<bool>,
    ) -> (r: DrmCompositor<U>)
        requires
            sorted_by_type(primary, planes),
            planes.cursor@.len() <= 32,
            planes.overlay@.len() <= 32,
            planes.cursor@ == (if is_legacy {
                Seq::empty()
            } else {
                given.cursor@
            }),
            planes.overlay@ == (if is_legacy {
                Seq::empty()
            } else {
                front_to_back(given.overlay@)
            }),
            is_legacy ==> !supports_fencing,
        ensures
            is_new(
                r@,
                primary,
                given,
                is_legacy,
                cursor_size,
                policy,
                has_cursor,
                output_mode_source,
            ),
            r@.primary_is_opaque == is_opaque,
            r@.supports_fencing == supports_fencing,
            r@.core.signaled_fence == signaled_fence,
            r@.core.formats == table,
            final(device).log() == old(device).log().push(
                Exchange::FreshId { answer: r@.primary_plane_element_id },
            ),
    {
        let id: u64 = device.fresh_id();
        let compositor = DrmCompositor::from_parts(
            primary,
            planes,
            table,
            cursor_size,
            policy,
            has_cursor,
            signaled_fence,
            supports_fencing,
            is_opaque,
            id,
            output_mode_source,
        );
        proof {
            let frame = compositor@.current;
            assert forall|i: int| 0 <= i < frame.len() implies (
            #[trigger] frame[i]).1.config is None by {
                assert(frame[i].1 == crate::plane::PlaneState::idle());
            }
            assert forall|handle: u32| !#[trigger] crate::frame_state::assigned(frame, handle) by {
                lemma_idle_frames_show_nothing(frame, handle);
            }
        }
        compositor
    }

    /// Initialize a compositor with the first color format that works, in order of preference, and
    /// an explicit cursor-plane policy.
    ///
    /// - `color_formats` are tried in order, and there has to be one
    /// - `renderer_formats` are those that the renderer supports
    /// - `has_cursor` tells whether buffers for cursor planes can be made
    pub fn new_with_cursor_plane_policy<A, B, F, R, D: Device<A, B, F, R>>(
        device: &mut Recorded<A, B, F, R, D>,
        output_mode_source: OutputModeSource,
        primary: PlaneInfo,
        planes: Planes,
        is_legacy: bool,
        table: FormatTable,
        color_formats: Vec<u32>,
        renderer_formats: &Vec<Format>,
        mode_size: Size,
        cursor_size: Size,
        has_cursor: bool,
        policy: CursorPlanePolicy,
    ) -> (r: Result<DrmCompositor<U>, FrameError<A, B, F>>)
        requires
            sorted_by_type(primary, planes),
            planes.cursor@.len() <= 32,
            planes.overlay@.len() <= 32,
            color_formats@.len() > 0,
        ensures
            r matches Ok(compositor) ==> is_new(
                compositor@,
                primary,
                planes,
                is_legacy,
                cursor_size,
                policy,
                has_cursor,
                output_mode_source,
            ) && exists|i: int|
                0 <= i < color_formats@.len() && compositor@.primary_is_opaque == needs_opaque(
                    primary.formats@,
                    table,
                    #[trigger] color_formats@[i],
                ),
            r matches Ok(compositor) ==> compositor@.core.formats == table,
            goes_on(old(device).log(), final(device).log()),
            setup_talk(
                setup_trial(primary, planes, is_legacy, policy, table, mode_size),
                (Choice::First {
                    codes: color_formats@,
                    renderer_formats: renderer_formats@,
                }),
                is_legacy,
                since(old(device).log(), final(device).log()),
                setup_result(r),
            ),
    {
        let ghost start = device.log();
        let signaled_fence = device.signaled_fence();
        let ghost given = planes;
        let ghost trial = setup_trial(primary, planes, is_legacy, policy, table, mode_size);
        let ghost choice = Choice::First {
            codes: color_formats@,
            renderer_formats: renderer_formats@,
        };
        let prepared = prepare_planes(planes, is_legacy);
        let ghost first = seq![Exchange::<A, B, F, R>::SignaledFence { answer: signaled_fence }];
        let ghost begun = device.log();
        proof {
            lemma_prepared_planes(primary, given, prepared, is_legacy);
            assert(begun =~= start + first);
            record_is_what_was_said(start, first);
        }
        let fencing = detect_fencing(device, primary.handle, is_legacy);
        let ghost fenced = device.log();
        let ghost asked = since(begun, fenced);
        proof {
            records_add_up(start, begun, fenced);
        }
        let supports_fencing = match fencing {
            Ok(supported) => supported,
            Err(error) => {
                proof {
                    let none = Seq::<Exchange<A, B, F, R>>::empty();
                    setups_are_their_pieces(
                        trial,
                        choice,
                        is_legacy,
                        signaled_fence,
                        asked,
                        fencing,
                        none,
                        Err::<Made, FrameError<A, B, F>>(FrameError::DrmError(error)),
                    );
                    assert(first + asked + none =~= first + asked);
                }
                return Err(FrameError::DrmError(error));
            },
        };
        let mut search = FormatSearch::begin(color_formats);
        proof {
            assert(fenced =~= fenced + Seq::<Exchange<A, B, F, R>>::empty());
            record_is_what_was_said(fenced, Seq::<Exchange<A, B, F, R>>::empty());
        }
        while search.index < search.formats.len()
            invariant
                search.wf(),
                search.formats@ == color_formats@,
                color_formats@.len() > 0,
                sorted_by_type(primary, prepared),
                prepared.cursor@.len() <= 32,
                prepared.overlay@.len() <= 32,
                prepared.cursor@ == (if is_legacy {
                    Seq::empty()
                } else {
                    given.cursor@
                }),
                prepared.overlay@ == (if is_legacy {
                    Seq::empty()
                } else {
                    front_to_back(given.overlay@)
                }),
                is_legacy ==> !supports_fencing,
                given == planes,
                trial == setup_trial(primary, planes, is_legacy, policy, table, mode_size),
                choice == (Choice::First {
                    codes: color_formats@,
                    renderer_formats: renderer_formats@,
                }),
                start == old(device).log(),
                fencing == Ok::<bool, DrmError>(supports_fencing),
                first == seq![Exchange::<A, B, F, R>::SignaledFence { answer: signaled_fence }],
                goes_on(start, fenced),
                since(start, fenced) == first + asked,
                fencing_talk(primary.handle, is_legacy, asked, fencing),
                goes_on(fenced, device.log()),
                passed_over(
                    trial,
                    renderer_formats@,
                    color_formats@,
                    search.index as nat,
                    since(fenced, device.log()),
                    search.error,
                ),
            decreases search.formats.len() - search.index,
        {
            let code: u32 = search.formats[search.index];
            assert(color_formats@[search.index as int] == code);
            let ghost before = device.log();
            let ghost sofar = since(fenced, before);
            assert(trial_for(
                primary,
                prepared,
                !policy.reserves_spec(),
                table,
                mode_size,
            ) == trial);
            let found = find_supported_format(
                device,
                supports_fencing,
                &primary,
                &prepared,
                !policy.reserves_legacy_cursor(),
                &table,
                mode_size,
                renderer_formats,
                code,
            );
            let ghost next = since(before, device.log());
            let ghost after = device.log();
            proof {
                records_add_up(fenced, before, after);
            }
            match found {
                Ok(is_opaque) => {
                    proof {
                        searches_end_with_success(
                            trial,
                            renderer_formats@,
                            color_formats@,
                            search.index as nat,
                            sofar,
                            search.error,
                            next,
                            is_opaque,
                        );
                    }
                    let compositor = DrmCompositor::assemble(
                        device,
                        primary,
                        prepared,
                        table,
                        cursor_size,
                        policy,
                        has_cursor,
                        signaled_fence,
                        supports_fencing,
                        is_opaque,
                        output_mode_source,
                        Ghost(given),
                        Ghost(is_legacy),
                    );
                    proof {
                        lemma_completed(
                            start,
                            fenced,
                            after,
                            device.log(),
                            trial,
                            choice,
                            is_legacy,
                            first,
                            asked,
                            made(compositor@),
                        );
                    }
                    return Ok(compositor);
                },
                Err(error) => {
                    proof {
                        failures_are_passed_over(
                            trial,
                            renderer_formats@,
                            color_formats@,
                            search.index as nat,
                            sofar,
                            search.error,
                            next,
                            error,
                        );
                    }
                    search.failed(error)
                },
            }
        }
        let error = search.into_error();
        proof {
            let tried = since(fenced, device.log());
            records_add_up(start, fenced, device.log());
            setups_are_their_pieces(
                trial,
                choice,
                is_legacy,
                signaled_fence,
                asked,
                fencing,
                tried,
                Err::<Made, FrameError<A, B, F>>(error),
            );
        }
        Err(error)
    }

    /// Initialize a compositor with a fixed format and cursor-plane policy.
    pub fn with_format_and_cursor_plane_policy<A, B, F, R, D: Device<A, B, F, R>>(
        device: &mut Recorded<A, B, F, R, D>,
        output_mode_source: OutputModeSource,
        primary: PlaneInfo,
        planes: Planes,
        is_legacy: bool,
        table: FormatTable,
        code: u32,
        modifiers: &Vec<u64>,
        mode_size: Size,
        cursor_size: Size,
        has_cursor: bool,
        policy: CursorPlanePolicy,
    ) -> (r: Result<DrmCompositor<U>, FrameError<A, B, F>>)
        requires
            sorted_by_type(primary, planes),
            planes.cursor@.len() <= 32,
            planes.overlay@.len() <= 32,
        ensures
            r matches Ok(compositor) ==> is_new(
                compositor@,
                primary,
                planes,
                is_legacy,
                cursor_size,
                policy,
                has_cursor,
                output_mode_source,
            ) && compositor@.primary_is_opaque == needs_opaque(primary.formats@, table, code),
            usable_modifiers(primary.formats@, table, code, modifiers@).len() == 0 ==> r is Err,
            r matches Ok(compositor) ==> compositor@.core.formats == table,
            goes_on(old(device).log(), final(device).log()),
            setup_talk(
                setup_trial(primary, planes, is_legacy, policy, table, mode_size),
                (Choice::Fixed { code, modifiers: modifiers@ }),
                is_legacy,
                since(old(device).log(), final(device).log()),
                setup_result(r),
            ),
    {
        let ghost start = device.log();
        let signaled_fence = device.signaled_fence();
        let ghost given = planes;
        let ghost trial = setup_trial(primary, planes, is_legacy, policy, table, mode_size);
        let ghost choice = Choice::Fixed { code, modifiers: modifiers@ };
        let prepared = prepare_planes(planes, is_legacy);
        let ghost first = seq![Exchange::<A, B, F, R>::SignaledFence { answer: signaled_fence }];
        let ghost begun = device.log();
        proof {
            lemma_prepared_planes(primary, given, prepared, is_legacy);
            assert(begun =~= start + first);
            record_is_what_was_said(start, first);
        }
        let fencing = detect_fencing(device, primary.handle, is_legacy);
        let ghost fenced = device.log();
        let ghost asked = since(begun, fenced);
        proof {
            records_add_up(start, begun, fenced);
        }
        let supports_fencing = match fencing {
            Ok(supported) => supported,
            Err(error) => {
                proof {
                    let none = Seq::<Exchange<A, B, F, R>>::empty();
                    setups_are_their_pieces(
                        trial,
                        choice,
                        is_legacy,
                        signaled_fence,
                        asked,
                        fencing,
                        none,
                        Err::<Made, FrameError<A, B, F>>(FrameError::DrmError(error)),
                    );
                    assert(first + asked + none =~= first + asked);
                }
                return Err(FrameError::DrmError(error));
            },
        };
        assert(trial_for(primary, prepared, !policy.reserves_spec(), table, mode_size) == trial);
        let tested = test_format(
            device,
            supports_fencing,
            &primary,
            &prepared,
            !policy.reserves_legacy_cursor(),
            &table,
            mode_size,
            code,
            modifiers,
        );
        let ghost after = device.log();
        match tested {
            Ok(is_opaque) => {
                let compositor = DrmCompositor::assemble(
                    device,
                    primary,
                    prepared,
                    table,
                    cursor_size,
                    policy,
                    has_cursor,
                    signaled_fence,
                    supports_fencing,
                    is_opaque,
                    output_mode_source,
                    Ghost(given),
                    Ghost(is_legacy),
                );
                proof {
                    lemma_completed(
                        start,
                        fenced,
                        after,
                        device.log(),
                        trial,
                        choice,
                        is_legacy,
                        first,
                        asked,
                        made(compositor@),
                    );
                }
                Ok(compositor)
            },
            Err(error) => {
                proof {
                    records_add_up(start, fenced, after);
                    setups_are_their_pieces(
                        trial,
                        choice,
                        is_legacy,
                        signaled_fence,
                        asked,
                        fencing,
                        since(fenced, after),
                        Err::<Made, FrameError<A, B, F>>(error),
                    );
                }
                Err(error)
            },
        }
    }

    /// Initialize a new compositor with the first color format that works, with cursor planes in
    /// atomic frames.
    pub fn new<A, B, F, R, D: Device<A, B, F, R>>(
        device: &mut Recorded<A, B, F, R, D>,
        output_mode_source: OutputModeSource,
        primary: PlaneInfo,
        planes: Planes,
        is_legacy: bool,
        table: FormatTable,
        color_formats: Vec<u32>,
        renderer_formats: &Vec<Format>,
        mode_size: Size,
        cursor_size: Size,
        has_cursor: bool,
    ) -> (r: Result<DrmCompositor<U>, FrameError<A, B, F>>)
        requires
            sorted_by_type(primary, planes),
            planes.cursor@.len() <= 32,
            planes.overlay@.len() <= 32,
            color_formats@.len() > 0,
        ensures
            r matches Ok(compositor) ==> is_new(
                compositor@,
                primary,
                planes,
                is_legacy,
                cursor_size,
                CursorPlanePolicy::Atomic,
                has_cursor,
                output_mode_source,
            ),
            r matches Ok(compositor) ==> compositor@.core.formats == table,
            goes_on(old(device).log(), final(device).log()),
            setup_talk(
                setup_trial(primary, planes, is_legacy, CursorPlanePolicy::Atomic, table, mode_size),
                (Choice::First {
                    codes: color_formats@,
                    renderer_formats: renderer_formats@,
                }),
                is_legacy,
                since(old(device).log(), final(device).log()),
                setup_result(r),
            ),
    {
        Self::new_with_cursor_plane_policy(
            device,
            output_mode_source,
            primary,
            planes,
            is_legacy,
            table,
            color_formats,
            renderer_formats,
            mode_size,
            cursor_size,
            has_cursor,
            CursorPlanePolicy::Atomic,
        )
    }

    /// Initialize a new compositor with a pre-selected format, with cursor planes in atomic frames.
    pub fn with_format<A, B, F, R, D: Device<A, B, F, R>>(
        device: &mut Recorded<A, B, F, R, D>,
        output_mode_source: OutputModeSource,
        primary: PlaneInfo,
        planes: Planes,
        is_legacy: bool,
        table: FormatTable,
        code: u32,
        modifiers: &Vec<u64>,
        mode_size: Size,
        cursor_size: Size,
        has_cursor: bool,
    ) -> (r: Result<DrmCompositor<U>, FrameError<A, B, F>>)
        requires
            sorted_by_type(primary, planes),
            planes.cursor@.len() <= 32,
            planes.overlay@.len() <= 32,
        ensures
            r matches Ok(compositor) ==> is_new(
                compositor@,
                primary,
                planes,
                is_legacy,
                cursor_size,
                CursorPlanePolicy::Atomic,
                has_cursor,
                output_mode_source,
            ) && compositor@.primary_is_opaque == needs_opaque(primary.formats@, table, code),
            usable_modifiers(primary.formats@, table, code, modifiers@).len() == 0 ==> r is Err,
            r matches Ok(compositor) ==> compositor@.core.formats == table,
            goes_on(old(device).log(), final(device).log()),
            setup_talk(
                setup_trial(primary, planes, is_legacy, CursorPlanePolicy::Atomic, table, mode_size),
                (Choice::Fixed { code, modifiers: modifiers@ }),
                is_legacy,
                since(old(device).log(), final(device).log()),
                setup_result(r),
            ),
    {
        Self::with_format_and_cursor_plane_policy(
            device,
            output_mode_source,
            primary,
            planes,
            is_legacy,
            table,
            code,
            modifiers,
            mode_size,
            cursor_size,
            has_cursor,
            CursorPlanePolicy::Atomic,
        )
    }

    /// Change the format of the swapchain. Nothing changes where the new one does not work.
    pub fn set_format<A, B, F, R, D: Device<A, B, F, R>>(
        &mut self,
        device: &mut Recorded<A, B, F, R, D>,
        mode_size: Size,
        code: u32,
        modifiers: &Vec<u64>,
    ) -> (r: Result<(), FrameError<A, B, F>>)
        ensures
            usable_modifiers(
                old(self)@.core.primary.formats@,
                old(self)@.core.formats,
                code,
                modifiers@,
            ).len() == 0 <==> (r matches Err(error) && error is NoSupportedPlaneFormat),
            goes_on(old(device).log(), final(device).log()),
            format_talk(
                trial_for(
                    old(self)@.core.primary,
                    old(self)@.core.planes,
                    !old(self)@.core.policy.reserves_spec(),
                    old(self)@.core.formats,
                    mode_size,
                ),
                code,
                modifiers@,
                since(old(device).log(), final(device).log()),
                match r {
                    Ok(_) => Ok(
                        needs_opaque(
                            old(self)@.core.primary.formats@,
                            old(self)@.core.formats,
                            code,
                        ),
                    ),
                    Err(error) => Err(error),
                },
            ),
            final(self)@ == (if r is Ok {
                CompositorView {
                    primary_is_opaque: needs_opaque(
                        old(self)@.core.primary.formats@,
                        old(self)@.core.formats,
                        code,
                    ),
                    ..old(self)@
                }
            } else {
                old(self)@
            }),
    {
        let tested = test_format(
            device,
            self.supports_fencing,
            &self.core.primary,
            &self.core.planes,
            !self.core.policy.reserves_legacy_cursor(),
            &self.core.formats,
            mode_size,
            code,
            modifiers,
        );
        self.format_tested(tested)
    }
}

} // verus!
