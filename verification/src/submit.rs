//! Handing frames and cursors to the device.

use vstd::prelude::*;
use crate::compositor::{
    CompositorView, DrmCompositor, OutputModeSource, PreparedView, PresentationMode, QueuedFrame,
};
use crate::device::Device;
use crate::record::{goes_on, record_is_what_was_said, records_add_up, since, Exchange, Recorded};
use crate::talk::{
    commit_talk, committed_talk, disable_talk, disabled_before, failure, flip_answer, is_partial, mode_talk, queue_talk, request_for,
    sent_planes, submit_talk, taken_as, update_talk,
};
use crate::driver::prepare_update;
use crate::error::{DrmError, FrameError};
use crate::geometry::{Point, Size};
use crate::legacy_cursor::{LegacyCursorMoveResult, LegacyCursorPresentation, LegacyCursorToken};
use crate::plane::PlaneState;

verus! {

/// One more exchange after a legacy cursor was taken off.
proof fn lemma_one_more<A, B, F, R>(
    start: Seq<Exchange<A, B, F, R>>,
    ended: Seq<Exchange<A, B, F, R>>,
    last: Exchange<A, B, F, R>,
)
    requires
        goes_on(start, ended),
    ensures
        goes_on(start, ended.push(last)),
        since(start, ended.push(last)) == since(start, ended).push(last),
        since(start, ended).push(last).drop_last() == since(start, ended),
{
    assert(ended.push(last) =~= ended + seq![last]);
    record_is_what_was_said(ended, seq![last]);
    records_add_up(start, ended, ended.push(last));
    assert(since(start, ended) + seq![last] =~= since(start, ended).push(last));
    assert(since(start, ended).push(last).drop_last() =~= since(start, ended));
}

impl<U> DrmCompositor<U> {
    /// Submits the queued frame: by a modeset if one is due, and otherwise by a flip.
    fn submit<A, B, F, R, D: Device<A, B, F, R>>(
        &mut self,
        device: &mut Recorded<A, B, F, R, D>,
        queued: QueuedFrame<U>,
    ) -> (r: Result<(), FrameError<A, B, F>>)
        requires
            old(self)@.queued is None,
        ensures
            goes_on(old(device).log(), final(device).log()),
            submit_talk(
                CompositorView {
                    queued: Some((queued.prepared_frame@, queued.user_data)),
                    ..old(self)@
                },
                final(self)@,
                since(old(device).log(), final(device).log()),
                failure(r),
            ),
    {
        let ghost start = device.log();
        let commit_pending = device.commit_pending();
        let ghost asked = device.log();
        let ghost first = Exchange::<A, B, F, R>::CommitPending { answer: commit_pending };
        let request = self.submit_request(&queued, commit_pending);
        let mut queued = queued;
        let ghost prepared = queued.prepared_frame@;
        let planes = prepare_update(
            device,
            &mut queued.prepared_frame.frame,
            self.supports_fencing,
            request.allow_partial_update,
        );
        let ghost ready = device.log();
        let result = if request.commit {
            match device.commit(&planes, true) {
                Ok(_) => Ok(PresentationMode::Vsync),
                Err(error) => Err(error),
            }
        } else {
            device.page_flip(&planes, true, request.want_async)
        };
        proof {
            reveal(submit_talk);
            let frame = queued.prepared_frame@.frame;
            let before = CompositorView {
                queued: Some((prepared, queued.user_data)),
                ..old(self)@
            };
            assert(queued.prepared_frame@ =~= (PreparedView { frame, ..prepared }));
            assert((CompositorView { queued: None, ..before }) =~= old(self)@);
            assert(request == request_for(before, prepared, commit_pending));
            let sent = device.log().last();
            assert(asked =~= start + seq![first]);
            record_is_what_was_said(start, seq![first]);
            assert(device.log() =~= ready + seq![sent]);
            record_is_what_was_said(ready, seq![sent]);
            records_add_up(start, asked, ready);
            records_add_up(start, ready, device.log());
            let talk = since(start, device.log());
            assert(talk.subrange(1, talk.len() - 1) =~= since(asked, ready));
            assert(sent_planes(sent) == planes@);
            assert(flip_answer(sent, request) == Some(result));
            assert(update_talk(
                prepared.frame,
                frame,
                before.supports_fencing,
                is_partial(prepared),
                talk.subrange(1, talk.len() - 1),
                sent_planes(talk.last()),
            ));
        }
        self.finish_submit(queued, request, result)
    }

    /// Queues the current frame for scan-out.
    ///
    /// If nothing was rendered before, or nothing changed, the frame is empty and nothing is queued.
    /// The frame is submitted at once if none is on its way to the screen. `user_data` comes back
    /// when the frame is shown.
    pub fn queue_frame<A, B, F, R, D: Device<A, B, F, R>>(
        &mut self,
        device: &mut Recorded<A, B, F, R, D>,
        user_data: U,
    ) -> (r: Result<(), FrameError<A, B, F>>)
        ensures
            goes_on(old(device).log(), final(device).log()),
            queue_talk(
                old(self)@,
                final(self)@,
                user_data,
                since(old(device).log(), final(device).log()),
                failure(r),
            ),
    {
        let ghost start = device.log();
        let is_active = device.is_active();
        let ghost first = seq![Exchange::<A, B, F, R>::IsActive { answer: is_active }];
        proof {
            reveal(queue_talk);
            assert(device.log() =~= start + first);
            record_is_what_was_said(start, first);
        }
        let outcome = match self.enqueue(user_data, is_active) {
            Ok(outcome) => outcome,
            Err(error) => {
                assert(is_active ==> self@ =~= (CompositorView { next: None, ..old(self)@ }));
                return Err(error);
            },
        };
        let ghost slots = match outcome.slot {
            Some(slot) => seq![Exchange::<A, B, F, R>::SlotSubmitted { slot }],
            None => Seq::empty(),
        };
        if let Some(slot) = outcome.slot {
            device.slot_submitted(slot);
        }
        let ghost noted = device.log();
        proof {
            assert(noted =~= start + (first + slots));
            record_is_what_was_said(start, first + slots);
            assert((first + slots).subrange(1, 1 + slots.len() as int) =~= slots);
        }
        if outcome.submit {
            let ghost before = self@;
            if let Some(queued) = self.take_queued() {
                proof {
                    assert(before =~= (CompositorView {
                        queued: Some((queued.prepared_frame@, queued.user_data)),
                        ..self@
                    }));
                }
                let r = self.submit(device, queued);
                proof {
                    records_add_up(start, noted, device.log());
                    let talk = since(start, device.log());
                    assert(talk.subrange(1, 1 + slots.len() as int) =~= slots);
                    assert(talk.skip(1 + slots.len() as int) =~= since(noted, device.log()));
                }
                return r;
            }
        }
        Ok(())
    }

    /// Commits the current frame for scan-out.
    ///
    /// Nothing waits for the screen: a committed frame is shown, and whatever was queued or on its
    /// way is dropped.
    pub fn commit_frame<A, B, F, R, D: Device<A, B, F, R>>(
        &mut self,
        device: &mut Recorded<A, B, F, R, D>,
    ) -> (r: Result<(), FrameError<A, B, F>>)
        ensures
            goes_on(old(device).log(), final(device).log()),
            commit_talk(
                old(self)@,
                final(self)@,
                since(old(device).log(), final(device).log()),
                failure(r),
            ),
    {
        let ghost start = device.log();
        let is_active = device.is_active();
        let ghost first = seq![Exchange::<A, B, F, R>::IsActive { answer: is_active }];
        proof {
            reveal(commit_talk);
            assert(device.log() =~= start + first);
            record_is_what_was_said(start, first);
        }
        let (prepared, slot) = match self.take_prepared(is_active) {
            Ok(taken) => taken,
            Err(error) => {
                assert(is_active ==> self@ =~= (CompositorView { next: None, ..old(self)@ }));
                return Err(error);
            },
        };
        let ghost slots = match slot {
            Some(slot) => seq![Exchange::<A, B, F, R>::SlotSubmitted { slot }],
            None => Seq::empty(),
        };
        if let Some(slot) = slot {
            device.slot_submitted(slot);
        }
        let ghost noted = device.log();
        let ghost taken = prepared@;
        let mut prepared = prepared;
        let planes = prepare_update(device, &mut prepared.frame, self.supports_fencing, false);
        let ghost ready = device.log();
        let flip = device.commit(&planes, false);
        proof {
            let frame = prepared@.frame;
            assert(prepared@ =~= (PreparedView { frame, ..taken }));
            assert(noted =~= start + (first + slots));
            record_is_what_was_said(start, first + slots);
            let sent = Exchange::<A, B, F, R>::Commit {
                planes: planes@,
                event: false,
                answer: flip,
            };
            assert(device.log() =~= ready + seq![sent]);
            record_is_what_was_said(ready, seq![sent]);
            records_add_up(noted, ready, device.log());
            records_add_up(start, noted, device.log());
            let talk = since(start, device.log());
            let rest = since(noted, device.log());
            assert(talk.subrange(1, 1 + slots.len() as int) =~= slots);
            assert(talk.skip(1 + slots.len() as int) =~= rest);
            assert(rest.drop_last() =~= since(noted, ready));
            assert(update_talk(
                taken.frame,
                frame,
                old(self)@.supports_fencing,
                false,
                rest.drop_last(),
                planes@,
            ));
        }
        let ghost frame = prepared@.frame;
        let r = self.finish_commit(prepared, flip);
        proof {
            let rest = since(noted, device.log());
            assert(rest.last() == (Exchange::<A, B, F, R>::Commit {
                planes: planes@,
                event: false,
                answer: flip,
            }));
            assert(taken_as(
                CompositorView { next: None, ..old(self)@ },
                self@,
                taken,
                frame,
                rest.drop_last(),
                sent_planes(rest.last()),
                rest.last()->Commit_answer,
            ));
            assert(committed_talk(
                CompositorView { next: None, ..old(self)@ },
                self@,
                taken,
                rest,
                failure(r),
            ));
        }
        r
    }

    /// Marks the current frame as submitted, and submits the one that waits for its turn.
    ///
    /// Hands out the user data of the frame that is shown now. If the next frame is refused, its
    /// error is handed out instead.
    pub fn frame_submitted<A, B, F, R, D: Device<A, B, F, R>>(
        &mut self,
        device: &mut Recorded<A, B, F, R, D>,
    ) -> (r: Result<Option<U>, FrameError<A, B, F>>)
        ensures
            goes_on(old(device).log(), final(device).log()),
            match old(self)@.pending {
                None => r == Ok::<Option<U>, FrameError<A, B, F>>(None) && final(self)@
                    == old(self)@ && final(device).log() == old(device).log(),
                Some((frame, user_data, _)) => {
                    let shown = CompositorView { pending: None, current: frame, ..old(self)@ };
                    &&& r matches Ok(data) ==> data == Some(user_data)
                    &&& old(self)@.queued is None ==> r is Ok && final(self)@ == shown
                        && final(device).log() == old(device).log()
                    &&& old(self)@.queued is Some ==> submit_talk(
                        shown,
                        final(self)@,
                        since(old(device).log(), final(device).log()),
                        failure(r),
                    )
                },
            },
    {
        match self.mark_shown() {
            None => Ok(None),
            Some((user_data, submit)) => {
                if submit {
                    let ghost before = self@;
                    if let Some(queued) = self.take_queued() {
                        proof {
                            assert(before =~= (CompositorView {
                                queued: Some((queued.prepared_frame@, queued.user_data)),
                                ..self@
                            }));
                        }
                        let submitted = self.submit(device, queued);
                        if let Err(error) = submitted {
                            return Err(error);
                        }
                    }
                }
                Ok(Some(user_data))
            },
        }
    }

    /// Takes the legacy cursor off, if one is installed. One that can not be taken off is handed
    /// back.
    pub fn disable_legacy_cursor<A, B, F, R, D: Device<A, B, F, R>>(
        &mut self,
        device: &mut Recorded<A, B, F, R, D>,
    ) -> (r:
        Option<LegacyCursorPresentation>)
        requires
            old(self)@.core.wf(),
        ensures
            final(self)@.core.wf(),
            goes_on(old(device).log(), final(device).log()),
            disable_talk(
                Self::has_legacy_cursor_spec(old(self)@),
                since(old(device).log(), final(device).log()),
            ),
            Self::has_legacy_cursor_spec(old(self)@) ==> r.is_none() == since(
                old(device).log(),
                final(device).log(),
            )[0]->DisableCursor_answer.is_ok(),
            !Self::has_legacy_cursor_spec(old(self)@) ==> r is None && final(self)@ == old(self)@,
            Self::has_legacy_cursor_spec(old(self)@) ==> match r {
                None => final(self)@ == old(self)@.with_legacy(
                    old(self)@.legacy().after_disable(true),
                ),
                Some(presentation) => final(self)@ == old(self)@
                    && old(self)@.legacy().active_presentation_spec() == Some(presentation),
            },
    {
        let ghost start = device.log();
        if !self.has_legacy_cursor() {
            proof {
                let talk = Seq::<Exchange<A, B, F, R>>::empty();
                assert(device.log() =~= start + talk);
                record_is_what_was_said(start, talk);
            }
            return None;
        }
        let answer = device.disable_cursor();
        proof {
            let talk = seq![Exchange::<A, B, F, R>::DisableCursor { answer }];
            assert(device.log() =~= start + talk);
            record_is_what_was_said(start, talk);
        }
        let disabled = answer.is_ok();
        let r = self.legacy_cursor_disabled(disabled);
        assert(disabled || self@ =~= old(self)@);
        r
    }

    /// Takes the legacy cursor off and forgets it, whether or not that worked.
    fn end_legacy_cursor<A, B, F, R, D: Device<A, B, F, R>>(
        &mut self,
        device: &mut Recorded<A, B, F, R, D>,
    )
        requires
            old(self)@.core.wf(),
        ensures
            final(self)@.core.wf(),
            final(self)@ == old(self)@.legacy_forgotten(),
            goes_on(old(device).log(), final(device).log()),
            disable_talk(
                Self::has_legacy_cursor_spec(old(self)@),
                since(old(device).log(), final(device).log()),
            ),
    {
        self.disable_legacy_cursor(device);
        self.invalidate_legacy_cursor_lifecycle();
        assert(self@ =~= old(self)@.legacy_forgotten());
    }

    /// Reset the underlying buffers
    pub fn reset_buffers<A, B, F, R, D: Device<A, B, F, R>>(
        &mut self,
        device: &mut Recorded<A, B, F, R, D>,
    )
        requires
            old(self)@.core.wf(),
        ensures
            final(self)@.core.wf(),
            final(self)@ == old(self)@.legacy_forgotten(),
            goes_on(old(device).log(), final(device).log()),
            disabled_before(
                Self::has_legacy_cursor_spec(old(self)@),
                since(old(device).log(), final(device).log()),
                Exchange::<A, B, F, R>::ResetBuffers,
            ),
    {
        self.end_legacy_cursor(device);
        let ghost ended = device.log();
        device.reset_buffers();
        proof {
            lemma_one_more(old(device).log(), ended, Exchange::<A, B, F, R>::ResetBuffers);
        }
    }

    /// Tries to set a new mode to be used after the next commit.
    pub fn use_mode<A, B, F, R, D: Device<A, B, F, R>>(
        &mut self,
        device: &mut Recorded<A, B, F, R, D>,
        mode: u64,
        size: Size,
    ) -> (r: Result<(), FrameError<A, B, F>>)
        requires
            old(self)@.core.wf(),
        ensures
            final(self)@.core.wf(),
            final(self)@ == old(self)@.legacy_forgotten(),
            goes_on(old(device).log(), final(device).log()),
            mode_talk(
                Self::has_legacy_cursor_spec(old(self)@),
                mode,
                size,
                since(old(device).log(), final(device).log()),
                failure(r),
            ),
    {
        let ghost start = device.log();
        self.end_legacy_cursor(device);
        let ghost ended = device.log();
        let used = device.use_mode(mode);
        let ghost first = Exchange::<A, B, F, R>::UseMode { mode, answer: used };
        let ghost disabled = since(start, ended);
        match used {
            Ok(_) => {
                device.resize_swapchain(size);
                proof {
                    let rest = seq![first, Exchange::<A, B, F, R>::ResizeSwapchain { size }];
                    assert(device.log() =~= ended + rest);
                    record_is_what_was_said(ended, rest);
                    records_add_up(start, ended, device.log());
                    assert((disabled + rest).take(disabled.len() as int) =~= disabled);
                }
                Ok(())
            },
            Err(error) => {
                proof {
                    assert(device.log() =~= ended + seq![first]);
                    record_is_what_was_said(ended, seq![first]);
                    records_add_up(start, ended, device.log());
                    assert((disabled + seq![first]).take(disabled.len() as int) =~= disabled);
                }
                Err(FrameError::DrmError(error))
            },
        }
    }

    /// Changes where the mode comes from. Damage is only forgotten, and the legacy cursor only taken
    /// off, if that is another source than before.
    pub fn set_output_mode_source<A, B, F, R, D: Device<A, B, F, R>>(
        &mut self,
        device: &mut Recorded<A, B, F, R, D>,
        output_mode_source: OutputModeSource,
    )
        requires
            old(self)@.core.wf(),
        ensures
            final(self)@.core.wf(),
            final(self)@ == (if output_mode_source.same_spec(old(self)@.output_mode_source) {
                old(self)@
            } else {
                CompositorView { output_mode_source, ..old(self)@.legacy_forgotten() }
            }),
            goes_on(old(device).log(), final(device).log()),
            if output_mode_source.same_spec(old(self)@.output_mode_source) {
                final(device).log() == old(device).log()
            } else {
                disabled_before(
                    Self::has_legacy_cursor_spec(old(self)@),
                    since(old(device).log(), final(device).log()),
                    (Exchange::<A, B, F, R>::ResetDamage { output_mode_source }),
                )
            },
    {
        if output_mode_source.same(self.output_mode_source) {
            return ;
        }
        self.end_legacy_cursor(device);
        let ghost ended = device.log();
        device.reset_damage(output_mode_source);
        proof {
            lemma_one_more(
                old(device).log(),
                ended,
                Exchange::<A, B, F, R>::ResetDamage { output_mode_source },
            );
        }
        self.output_mode_source = output_mode_source;
    }

    /// Resets the state of the surface, which is needed whenever something else may have changed
    /// it. The next frame then names all planes.
    pub fn reset_state<A, B, F, R, D: Device<A, B, F, R>>(
        &mut self,
        device: &mut Recorded<A, B, F, R, D>,
    ) -> (r: Result<
        (),
        DrmError,
    >)
        ensures
            final(device).log() == old(device).log().push(Exchange::ResetState { answer: r }),
            final(self)@ == (if r is Ok {
                CompositorView { reset_pending: true, ..old(self)@ }
            } else {
                old(self)@
            }),
    {
        let result = device.reset_state();
        self.state_reset(result)
    }

    /// Clear the surface, which turns the output off, makes all planes idle and drops the frames
    /// that are not shown yet.
    pub fn clear<A, B, F, R, D: Device<A, B, F, R>>(
        &mut self,
        device: &mut Recorded<A, B, F, R, D>,
    ) -> (r: Result<
        (),
        DrmError,
    >)
        requires
            old(self)@.core.wf(),
        ensures
            final(self)@.core.wf(),
            final(self)@ == (if r is Ok {
                CompositorView {
                    current: old(self)@.current.map_values(
                        |entry: (u32, PlaneState)| (entry.0, PlaneState::idle()),
                    ),
                    pending: None,
                    queued: None,
                    next: None,
                    ..old(self)@.legacy_forgotten()
                }
            } else {
                old(self)@.legacy_forgotten()
            }),
            goes_on(old(device).log(), final(device).log()),
            disabled_before(
                Self::has_legacy_cursor_spec(old(self)@),
                since(old(device).log(), final(device).log()),
                (Exchange::<A, B, F, R>::Clear { answer: r }),
            ),
    {
        self.end_legacy_cursor(device);
        let ghost ended = device.log();
        let result = device.clear();
        proof {
            lemma_one_more(
                old(device).log(),
                ended,
                Exchange::<A, B, F, R>::Clear { answer: result },
            );
        }
        self.cleared(result)
    }

    /// Sets the debug flags for rendering. The buffers of the swapchain are reset if they changed, as
    /// what was rendered before has to go.
    pub fn set_debug_flags<A, B, F, R, D: Device<A, B, F, R>>(
        &mut self,
        device: &mut Recorded<A, B, F, R, D>,
        flags: u32,
    )
        ensures
            final(self)@ == (CompositorView { debug_flags: flags, ..old(self)@ }),
            final(device).log() == (if flags != old(self)@.debug_flags {
                old(device).log().push(Exchange::ResetBuffers)
            } else {
                old(device).log()
            }),
    {
        if self.change_debug_flags(flags) {
            device.reset_buffers();
        }
    }

    /// Move an active legacy cursor without submitting an atomic frame.
    ///
    /// The device is only asked where the token is the one of the installed cursor.
    pub fn move_legacy_cursor<A, B, F, R, D: Device<A, B, F, R>>(
        &mut self,
        device: &mut Recorded<A, B, F, R, D>,
        token: LegacyCursorToken,
        physical_origin: Point,
    ) -> (r: LegacyCursorMoveResult)
        requires
            old(self)@.core.wf(),
        ensures
            final(self)@.core.wf(),
            match old(self)@.core.cursor {
                None => r == LegacyCursorMoveResult::NotActive && final(self)@ == old(self)@
                    && final(device).log() == old(device).log(),
                Some(cursor) => match cursor.legacy.move_refusal_spec(token) {
                    Some(refusal) => r == refusal && final(self)@ == old(self)@
                        && final(device).log() == old(device).log(),
                    None => exists|result: Result<(), Option<i32>>| #[trigger]
                        cursor.legacy.move_result(physical_origin, result) == r && final(self)@
                            == old(self)@.with_legacy(
                            cursor.legacy.after_move(physical_origin, result),
                        ) && final(device).log() == old(device).log().push(
                            Exchange::MoveCursor { origin: physical_origin, answer: result },
                        ),
                },
            },
            r == LegacyCursorMoveResult::NotActive ==> !Self::has_legacy_cursor_spec(final(self)@),
    {
        match self.move_refusal(token) {
            Some(refusal) => refusal,
            None => {
                let result = device.move_cursor(physical_origin);
                let r = self.legacy_cursor_moved(token, physical_origin, result);
                assert(old(self)@.core.cursor->0.legacy.move_result(physical_origin, result) == r);
                r
            },
        }
    }
}

} // verus!
