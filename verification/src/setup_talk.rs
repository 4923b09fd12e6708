//! What is exchanged with a device while a compositor is set up, and what comes of it.

use vstd::prelude::*;
use crate::buffer::{CachedDrmFramebuffer, DrmFramebuffer, Format, Slot};
use crate::compositor::CompositorView;
use crate::core_state::FormatTable;
use crate::error::{DrmError, FrameError};
use crate::formats::{plane_candidates, renderer_candidates, supported_modifiers_spec};
use crate::frame_build::swapchain_state;
use crate::frame_state::{
    built_planes, fence_requests, idle_entries, wants_fence, with_state,
};
use crate::geometry::Size;
use crate::init::{needs_opaque, usable_modifiers};
use crate::plane::{PlaneInfo, PlaneState};
use crate::record::Exchange;
use crate::setup::{has_working_fences, names_nvidia, version_of};
use crate::talk::{claimed_planes, test_talk, update_talk, wanted_planes};

verus! {

// ---------------------------------------------------------------------------------------------
// Fences
// ---------------------------------------------------------------------------------------------

/// Whether it was found out if fences can be used: the driver is asked for its name first, then,
/// unless the surface is a legacy one, whatever else has a say, up to the first refusal.
#[verifier::opaque]
pub open spec fn fencing_talk<A, B, F, R>(
    primary: u32,
    is_legacy: bool,
    talk: Seq<Exchange<A, B, F, R>>,
    result: Result<bool, DrmError>,
) -> bool {
    talk.len() >= 1 && (talk[0] matches Exchange::Driver { answer } && match answer {
        Err(error) => talk.len() == 1 && result == Err::<bool, DrmError>(error),
        Ok((name, description)) => if is_legacy {
            talk.len() == 1 && result == Ok::<bool, DrmError>(false)
        } else {
            capability_talk(
                primary,
                names_nvidia(name@) || names_nvidia(description@),
                talk.skip(1),
                result,
            )
        },
    })
}

/// The rest of it, once the driver is known: the driver needs synchronization objects.
pub open spec fn capability_talk<A, B, F, R>(
    primary: u32,
    nvidia: bool,
    talk: Seq<Exchange<A, B, F, R>>,
    result: Result<bool, DrmError>,
) -> bool {
    talk.len() >= 1 && (talk[0] matches Exchange::SyncobjCapability { answer } && match answer {
        Err(error) => talk.len() == 1 && result == Err::<bool, DrmError>(error),
        Ok(value) => if value == 0 {
            talk.len() == 1 && result == Ok::<bool, DrmError>(false)
        } else {
            property_talk(primary, nvidia, talk.skip(1), result)
        },
    })
}

/// The rest of it, once the driver has what is needed: the primary plane has to take fences, and
/// the kernel module of Nvidia drivers has to be recent.
pub open spec fn property_talk<A, B, F, R>(
    primary: u32,
    nvidia: bool,
    talk: Seq<Exchange<A, B, F, R>>,
    result: Result<bool, DrmError>,
) -> bool {
    talk.len() >= 1 && (talk[0] matches Exchange::TakesFences { plane, answer } && plane == primary
        && match answer {
        Err(error) => talk.len() == 1 && result == Err::<bool, DrmError>(error),
        Ok(present) => if present && nvidia {
            talk.len() == 2 && (talk[1] matches Exchange::DriverVersion { answer } && result == Ok::<
                bool,
                DrmError,
            >(
                has_working_fences(
                    match answer {
                        Some(text) => version_of(text@),
                        None => None,
                    },
                ),
            ))
        } else {
            talk.len() == 1 && result == Ok::<bool, DrmError>(present)
        },
    })
}

// ---------------------------------------------------------------------------------------------
// Formats
// ---------------------------------------------------------------------------------------------

/// What formats are tried out for.
pub struct Trial {
    pub primary: PlaneInfo,
    pub cursor: Seq<PlaneInfo>,
    pub overlay: Seq<PlaneInfo>,
    pub include_cursor_planes: bool,
    pub table: FormatTable,
    pub mode_size: Size,
}

/// The frame that is tested: nothing but a buffer on the primary plane.
pub open spec fn trial_frame(
    trial: Trial,
    slot: Slot,
    fb: CachedDrmFramebuffer,
    size: Size,
    claim: u64,
) -> Seq<(u32, PlaneState)> {
    let handle = trial.primary.handle;
    with_state(
        seq![(handle, PlaneState::idle())] + (if trial.include_cursor_planes {
            idle_entries(trial.cursor)
        } else {
            Seq::empty()
        }) + idle_entries(trial.overlay),
        handle,
        PlaneState {
            needs_test: true,
            ..swapchain_state(slot, fb, size, trial.mode_size, claim)
        },
    )
}

pub open spec fn failed_with<A, B, F>(error: FrameError<A, B, F>) -> Result<
    bool,
    FrameError<A, B, F>,
> {
    Err(error)
}

/// Whether a new swapchain was tried out: a buffer was taken out of it, exported and made a
/// framebuffer, the primary plane claimed, and a frame with the buffer on it tested with a modeset;
/// the first failure ends it.
#[verifier::opaque]
pub open spec fn swapchain_talk<A, B, F, R>(
    trial: Trial,
    opaque: bool,
    talk: Seq<Exchange<A, B, F, R>>,
    result: Result<bool, FrameError<A, B, F>>,
) -> bool {
    talk.len() >= 1 && (talk[0] matches Exchange::Acquire { answer } && match answer {
        Err(error) => talk.len() == 1 && result == failed_with(
            FrameError::<A, B, F>::Allocator(error),
        ),
        Ok(None) => talk.len() == 1 && result == failed_with(
            FrameError::<A, B, F>::NoFreeSlotsError,
        ),
        Ok(Some(slot)) => talk.len() >= 2 && (talk[1] matches Exchange::ExportSlot {
            slot: exported,
            answer,
        } && exported == slot && match answer {
            Err(error) => talk.len() == 2 && result == failed_with(
                FrameError::<A, B, F>::AsDmabufError(error),
            ),
            Ok(size) => shown_talk(trial, opaque, slot, size, talk.skip(2), result),
        }),
    })
}

/// The rest of it, once there is an exported buffer.
pub open spec fn shown_talk<A, B, F, R>(
    trial: Trial,
    opaque: bool,
    slot: Slot,
    size: Size,
    talk: Seq<Exchange<A, B, F, R>>,
    result: Result<bool, FrameError<A, B, F>>,
) -> bool {
    talk.len() >= 1 && (talk[0] matches Exchange::AddSlotFramebuffer {
        slot: added,
        use_opaque,
        answer,
    } && added == slot && use_opaque == opaque && match answer {
        Err(error) => talk.len() == 1 && result == failed_with(
            FrameError::<A, B, F>::FramebufferExport(error),
        ),
        Ok(None) => talk.len() == 1 && result == failed_with(FrameError::<A, B, F>::NoFramebuffer),
        Ok(Some(info)) => {
            let fb = CachedDrmFramebuffer { framebuffer: DrmFramebuffer::Exporter(info) };
            talk.len() >= 3 && talk[1] == (Exchange::<A, B, F, R>::KeepSlotFramebuffer { slot, fb })
                && (talk[2] matches Exchange::ClaimPlane { plane, answer } && plane
                == trial.primary.handle && match answer {
                None => talk.len() == 3 && result == failed_with(
                    FrameError::<A, B, F>::PrimaryPlaneClaimFailed,
                ),
                Some(claim) => talk.len() == 4 && (talk[3] matches Exchange::TestState {
                    planes,
                    allow_modeset,
                    answer,
                } && allow_modeset && planes == built_planes(
                    trial_frame(trial, slot, fb, size, claim),
                    true,
                    Seq::empty(),
                ) && result == (match answer {
                    Ok(_) => Ok(opaque),
                    Err(error) => Err(FrameError::<A, B, F>::DrmError(error)),
                })),
            })
        },
    })
}

/// Whether a format was tried out with some modifiers: a swapchain with those that the plane takes
/// is opened and tried out, and given up again where it does not work.
#[verifier::opaque]
pub open spec fn format_talk<A, B, F, R>(
    trial: Trial,
    code: u32,
    modifiers: Seq<u64>,
    talk: Seq<Exchange<A, B, F, R>>,
    result: Result<bool, FrameError<A, B, F>>,
) -> bool {
    let usable = usable_modifiers(trial.primary.formats@, trial.table, code, modifiers);
    let opaque = needs_opaque(trial.primary.formats@, trial.table, code);
    if usable.len() == 0 {
        talk.len() == 0 && result == failed_with(FrameError::<A, B, F>::NoSupportedPlaneFormat)
    } else {
        &&& talk.len() >= 1
        &&& talk[0] == (Exchange::<A, B, F, R>::OpenSwapchain {
            size: trial.mode_size,
            code,
            modifiers: usable,
        })
        &&& match result {
            Ok(_) => swapchain_talk(trial, opaque, talk.skip(1), result),
            Err(_) => talk.len() >= 2 && talk.last() == (
            Exchange::<A, B, F, R>::RestoreSwapchain) && swapchain_talk(
                trial,
                opaque,
                talk.subrange(1, talk.len() - 1),
                result,
            ),
        }
    }
}

/// Whether a format was tried out with the modifiers that both the plane and the renderer support.
pub open spec fn candidate_talk<A, B, F, R>(
    trial: Trial,
    renderer_formats: Seq<Format>,
    code: u32,
    talk: Seq<Exchange<A, B, F, R>>,
    result: Result<bool, FrameError<A, B, F>>,
) -> bool {
    let plane = plane_candidates(trial.primary.formats@, code, trial.table.opaque_or_same(code));
    let renderer = renderer_candidates(renderer_formats, code);
    if plane.len() == 0 {
        talk.len() == 0 && result == failed_with(FrameError::<A, B, F>::NoSupportedPlaneFormat)
    } else if renderer.len() == 0 {
        talk.len() == 0 && result == failed_with(FrameError::<A, B, F>::NoSupportedRendererFormat)
    } else {
        format_talk(trial, code, supported_modifiers_spec(plane, renderer), talk, result)
    }
}

/// Whether the first formats were tried out one after the other, and none of them works.
pub open spec fn all_failed<A, B, F, R>(
    trial: Trial,
    renderer_formats: Seq<Format>,
    formats: Seq<u32>,
    n: nat,
    talk: Seq<Exchange<A, B, F, R>>,
) -> bool
    decreases n,
{
    if n == 0 {
        talk.len() == 0
    } else {
        exists|k: int, error: FrameError<A, B, F>|
            #![trigger candidate_talk(trial, renderer_formats, formats[n - 1], talk.skip(k), failed_with(error))]
            0 <= k <= talk.len() && all_failed(
                trial,
                renderer_formats,
                formats,
                (n - 1) as nat,
                talk.take(k),
            ) && candidate_talk(
                trial,
                renderer_formats,
                formats[n - 1],
                talk.skip(k),
                failed_with(error),
            )
    }
}

/// The same, where `error` is why the last of them does not work.
pub open spec fn passed_over<A, B, F, R>(
    trial: Trial,
    renderer_formats: Seq<Format>,
    formats: Seq<u32>,
    n: nat,
    talk: Seq<Exchange<A, B, F, R>>,
    error: Option<FrameError<A, B, F>>,
) -> bool {
    if n == 0 {
        talk.len() == 0 && error is None
    } else {
        error matches Some(error) && exists|k: int|
            #![trigger candidate_talk(trial, renderer_formats, formats[n - 1], talk.skip(k), failed_with(error))]
            0 <= k <= talk.len() && all_failed(
                trial,
                renderer_formats,
                formats,
                (n - 1) as nat,
                talk.take(k),
            ) && candidate_talk(
                trial,
                renderer_formats,
                formats[n - 1],
                talk.skip(k),
                failed_with(error),
            )
    }
}

/// Which formats are to be tried.
pub enum Choice {
    /// One, with some modifiers.
    Fixed { code: u32, modifiers: Seq<u64> },
    /// The first one that works.
    First { codes: Seq<u32>, renderer_formats: Seq<Format> },
}

/// Whether all formats before a position were tried out without success, and then the one there with
/// a result. `k` tells how much of what was exchanged is about the former.
pub open spec fn found_at<A, B, F, R>(
    trial: Trial,
    renderer_formats: Seq<Format>,
    codes: Seq<u32>,
    n: int,
    k: int,
    talk: Seq<Exchange<A, B, F, R>>,
    result: Result<bool, FrameError<A, B, F>>,
) -> bool {
    &&& 0 <= n < codes.len()
    &&& 0 <= k <= talk.len()
    &&& all_failed(trial, renderer_formats, codes, n as nat, talk.take(k))
    &&& candidate_talk(trial, renderer_formats, codes[n], talk.skip(k), result)
}

/// Whether formats were tried out one after the other up to the first one that works, or all of them
/// where none does, which ends with the error of the last one.
pub open spec fn search_talk<A, B, F, R>(
    trial: Trial,
    renderer_formats: Seq<Format>,
    codes: Seq<u32>,
    talk: Seq<Exchange<A, B, F, R>>,
    result: Result<bool, FrameError<A, B, F>>,
) -> bool {
    if result is Ok {
        exists|n: int, k: int| #[trigger]
            found_at(trial, renderer_formats, codes, n, k, talk, result)
    } else {
        passed_over(trial, renderer_formats, codes, codes.len(), talk, Some(result->Err_0))
    }
}

/// Whether formats were tried out as chosen.
pub open spec fn choice_talk<A, B, F, R>(
    trial: Trial,
    choice: Choice,
    talk: Seq<Exchange<A, B, F, R>>,
    result: Result<bool, FrameError<A, B, F>>,
) -> bool {
    match choice {
        Choice::Fixed { code, modifiers } => format_talk(trial, code, modifiers, talk, result),
        Choice::First { codes, renderer_formats } => search_talk(
            trial,
            renderer_formats,
            codes,
            talk,
            result,
        ),
    }
}

// ---------------------------------------------------------------------------------------------
// Compositors
// ---------------------------------------------------------------------------------------------

/// What a new compositor has from the device.
pub struct Made {
    pub signaled_fence: Option<u64>,
    pub supports_fencing: bool,
    pub primary_is_opaque: bool,
    pub primary_plane_element_id: u64,
}

pub open spec fn made<U>(compositor: CompositorView<U>) -> Made {
    Made {
        signaled_fence: compositor.core.signaled_fence,
        supports_fencing: compositor.supports_fencing,
        primary_is_opaque: compositor.primary_is_opaque,
        primary_plane_element_id: compositor.primary_plane_element_id,
    }
}

/// Whether a compositor was set up: a signaled fence was asked for, then it was found out whether
/// fences can be used, then formats were tried out as chosen, and an id taken. That works if and
/// only if the questions about fences were answered and a format works; otherwise the first error
/// is the result.
#[verifier::opaque]
pub open spec fn setup_talk<A, B, F, R>(
    trial: Trial,
    choice: Choice,
    is_legacy: bool,
    talk: Seq<Exchange<A, B, F, R>>,
    result: Result<Made, FrameError<A, B, F>>,
) -> bool {
    talk.len() >= 1 && (talk[0] matches Exchange::SignaledFence { answer } && exists|
        k: int,
        fencing: Result<bool, DrmError>,
    |
        #![trigger fencing_talk(trial.primary.handle, is_legacy, talk.subrange(1, k), fencing)]
        1 <= k <= talk.len() && fencing_talk(
            trial.primary.handle,
            is_legacy,
            talk.subrange(1, k),
            fencing,
        ) && match fencing {
            Err(error) => k == talk.len() && result == Err::<Made, FrameError<A, B, F>>(
                FrameError::DrmError(error),
            ),
            Ok(supports_fencing) => tried_talk(
                trial,
                choice,
                answer,
                supports_fencing,
                talk.skip(k),
                result,
            ),
        })
}

/// The rest of it, once it is known whether fences can be used.
pub open spec fn tried_talk<A, B, F, R>(
    trial: Trial,
    choice: Choice,
    signaled_fence: Option<u64>,
    supports_fencing: bool,
    talk: Seq<Exchange<A, B, F, R>>,
    result: Result<Made, FrameError<A, B, F>>,
) -> bool {
    match result {
        Err(error) => choice_talk(trial, choice, talk, failed_with(error)),
        Ok(made) => {
            &&& talk.len() >= 1
            &&& talk.last() == (Exchange::<A, B, F, R>::FreshId {
                answer: made.primary_plane_element_id,
            })
            &&& choice_talk(
                trial,
                choice,
                talk.drop_last(),
                Ok::<bool, FrameError<A, B, F>>(made.primary_is_opaque),
            )
            &&& made.signaled_fence == signaled_fence
            &&& made.supports_fencing == supports_fencing
        },
    }
}

proof fn lemma_no_requests(frame: Seq<(u32, PlaneState)>)
    requires
        forall|i: int| 0 <= i < frame.len() ==> !wants_fence(#[trigger] frame[i]),
    ensures
        fence_requests(frame).len() == 0,
    decreases frame.len(),
{
    if frame.len() > 0 {
        let front = frame.drop_last();
        assert forall|i: int| 0 <= i < front.len() implies !wants_fence(#[trigger] front[i]) by {
            assert(front[i] == frame[i]);
        }
        lemma_no_requests(front);
    }
}

/// Testing a new swapchain takes nothing but the one question: no fence has to be made for it, and
/// no other plane claimed.
pub proof fn trials_ask_once<A, B, F, R>(
    trial: Trial,
    slot: Slot,
    fb: CachedDrmFramebuffer,
    size: Size,
    claim: u64,
    after: Seq<(u32, PlaneState)>,
    supports_fencing: bool,
    talk: Seq<Exchange<A, B, F, R>>,
    verdict: Result<(), DrmError>,
)
    requires
        test_talk(
            trial_frame(trial, slot, fb, size, claim),
            after,
            supports_fencing,
            true,
            true,
            talk,
            verdict,
        ),
    ensures
        talk == seq![
            Exchange::<A, B, F, R>::TestState {
                planes: built_planes(trial_frame(trial, slot, fb, size, claim), true, Seq::empty()),
                allow_modeset: true,
                answer: verdict,
            },
        ],
{
    reveal(test_talk);
    reveal(update_talk);
    let frame = trial_frame(trial, slot, fb, size, claim);
    let handle = trial.primary.handle;
    crate::frame_state::index_is_the_first_entry(
        seq![(handle, PlaneState::idle())] + (if trial.include_cursor_planes {
            idle_entries(trial.cursor)
        } else {
            Seq::empty()
        }) + idle_entries(trial.overlay),
        handle,
    );
    assert forall|i: int| 0 <= i < frame.len() implies !wants_fence(#[trigger] frame[i]) by {}
    lemma_no_requests(frame);
    let fences = crate::talk::wanted_fences(frame, supports_fencing);
    assert(fences.len() == 0);
    assert(wanted_planes(after, true).len() == 0);
    assert(after == frame);
    assert(talk.len() == 1);
    let claims = talk.drop_last().skip(0);
    assert(claimed_planes(wanted_planes(after, true), claims, 0) =~= Seq::empty());
    assert(talk =~= seq![talk[0]]);
}

/// The pieces of a setup make the whole.
pub proof fn setups_are_their_pieces<A, B, F, R>(
    trial: Trial,
    choice: Choice,
    is_legacy: bool,
    signaled_fence: Option<u64>,
    asked: Seq<Exchange<A, B, F, R>>,
    fencing: Result<bool, DrmError>,
    tried: Seq<Exchange<A, B, F, R>>,
    result: Result<Made, FrameError<A, B, F>>,
)
    requires
        fencing_talk(trial.primary.handle, is_legacy, asked, fencing),
        match fencing {
            Err(error) => tried.len() == 0 && result == Err::<Made, FrameError<A, B, F>>(
                FrameError::DrmError(error),
            ),
            Ok(supports_fencing) => tried_talk(
                trial,
                choice,
                signaled_fence,
                supports_fencing,
                tried,
                result,
            ),
        },
    ensures
        setup_talk(
            trial,
            choice,
            is_legacy,
            seq![Exchange::<A, B, F, R>::SignaledFence { answer: signaled_fence }] + asked + tried,
            result,
        ),
{
    reveal(setup_talk);
    let first = seq![Exchange::<A, B, F, R>::SignaledFence { answer: signaled_fence }];
    let talk = first + asked + tried;
    let k = 1 + asked.len() as int;
    assert(talk.subrange(1, k) =~= asked);
    assert(talk.skip(k) =~= tried);
    assert(fencing_talk(trial.primary.handle, is_legacy, talk.subrange(1, k), fencing));
}

proof fn lemma_all_failed<A, B, F, R>(
    trial: Trial,
    renderer_formats: Seq<Format>,
    formats: Seq<u32>,
    n: nat,
    talk: Seq<Exchange<A, B, F, R>>,
    error: Option<FrameError<A, B, F>>,
)
    requires
        passed_over(trial, renderer_formats, formats, n, talk, error),
    ensures
        all_failed(trial, renderer_formats, formats, n, talk),
{
    if n > 0 {
        let e = error->0;
        let k = choose|k: int|
            #![trigger candidate_talk(trial, renderer_formats, formats[n - 1], talk.skip(k), failed_with(e))]
            0 <= k <= talk.len() && all_failed(
                trial,
                renderer_formats,
                formats,
                (n - 1) as nat,
                talk.take(k),
            ) && candidate_talk(
                trial,
                renderer_formats,
                formats[n - 1],
                talk.skip(k),
                failed_with(e),
            );
        assert(candidate_talk(
            trial,
            renderer_formats,
            formats[n - 1],
            talk.skip(k),
            failed_with(e),
        ));
    }
}

/// One more format that does not work is passed over.
pub proof fn failures_are_passed_over<A, B, F, R>(
    trial: Trial,
    renderer_formats: Seq<Format>,
    formats: Seq<u32>,
    n: nat,
    talk: Seq<Exchange<A, B, F, R>>,
    before: Option<FrameError<A, B, F>>,
    next: Seq<Exchange<A, B, F, R>>,
    error: FrameError<A, B, F>,
)
    requires
        passed_over(trial, renderer_formats, formats, n, talk, before),
        candidate_talk(trial, renderer_formats, formats[n as int], next, failed_with(error)),
    ensures
        passed_over(trial, renderer_formats, formats, n + 1, talk + next, Some(error)),
{
    let all = talk + next;
    let k = talk.len() as int;
    assert(all.take(k) =~= talk);
    assert(all.skip(k) =~= next);
    lemma_all_failed(trial, renderer_formats, formats, n, talk, before);
    assert(candidate_talk(
        trial,
        renderer_formats,
        formats[(n + 1) - 1],
        all.skip(k),
        failed_with(error),
    ));
}

/// The search ends with the first format that works.
pub proof fn searches_end_with_success<A, B, F, R>(
    trial: Trial,
    renderer_formats: Seq<Format>,
    codes: Seq<u32>,
    n: nat,
    talk: Seq<Exchange<A, B, F, R>>,
    before: Option<FrameError<A, B, F>>,
    next: Seq<Exchange<A, B, F, R>>,
    opaque: bool,
)
    requires
        n < codes.len(),
        passed_over(trial, renderer_formats, codes, n, talk, before),
        candidate_talk(
            trial,
            renderer_formats,
            codes[n as int],
            next,
            Ok::<bool, FrameError<A, B, F>>(opaque),
        ),
    ensures
        choice_talk(
            trial,
            Choice::First { codes, renderer_formats },
            talk + next,
            Ok::<bool, FrameError<A, B, F>>(opaque),
        ),
{
    let all = talk + next;
    let k = talk.len() as int;
    assert(all.take(k) =~= talk);
    assert(all.skip(k) =~= next);
    let result = Ok::<bool, FrameError<A, B, F>>(opaque);
    lemma_all_failed(trial, renderer_formats, codes, n, talk, before);
    assert(found_at(trial, renderer_formats, codes, n as int, k, all, result));
    assert(search_talk(trial, renderer_formats, codes, all, result));
}

} // verus!
