//! The attempt to show the cursor element of a frame through the legacy cursor ioctls.

use vstd::prelude::*;
use crate::element::{ElementInfo, Kind, OutputState};
use crate::geometry::{Point, Size};
use crate::legacy_cursor::{
    install_next, install_start, InstallStep, LegacyCursorActive, LegacyCursorAssignment,
    LegacyCursorInstallResult, LegacyCursorMoveResult, LegacyCursorPlan, LegacyCursorState,
};
use crate::transform::{cursor_plane_location, cursor_plane_location_fits, cursor_plane_origin};

verus! {

/// What a legacy attempt waits for.
#[derive(Clone, Copy, Debug, PartialEq, Eq, Structural)]
pub enum LegacyPhase {
    /// The installed cursor to be moved.
    Move,
    /// A buffer with the cursor drawn in it.
    Draw,
    /// One of the ioctls of an installation.
    Install { step: InstallStep, buffer: u64 },
    /// Nothing any more. `released` tells whether the cursor planes go over to atomic frames.
    Done { assignment: LegacyCursorAssignment, released: bool },
}

/// What has to be done for a legacy attempt.
#[derive(Clone, Copy, Debug, PartialEq, Eq, Structural)]
pub enum LegacyRequest {
    MoveCursor(Point),
    DrawCursor { element_size: Size, plane_size: Size },
    DisableCursor,
    InstallCursor(u64),
    Finished { assignment: LegacyCursorAssignment, released: bool },
}

/// The attempt to show one element as the legacy cursor.
#[derive(Clone, Copy, Debug, PartialEq, Eq, Structural)]
pub struct LegacyAttempt {
    pub element: ElementInfo,
    pub element_size: Size,
    pub origin: Point,
    pub plane_size: Size,
    pub output: OutputState,
    pub phase: LegacyPhase,
}

/// Whether the place of a cursor can be computed.
pub open spec fn legacy_fits(element: ElementInfo, output: OutputState, cursor_size: Size) -> bool {
    element.kind == Kind::Cursor ==> cursor_plane_location_fits(
        element.location,
        cursor_size,
        output.geometry,
        output.transform,
    )
}

pub open spec fn ended(assignment: LegacyCursorAssignment) -> LegacyPhase {
    LegacyPhase::Done { assignment, released: false }
}

/// How many ioctls of an installation are left at most.
pub open spec fn install_steps(step: InstallStep) -> nat {
    match step {
        InstallStep::DisableReplaced => 5,
        InstallStep::MoveFirst => 4,
        InstallStep::Install => 3,
        InstallStep::MoveInstalled => 2,
        InstallStep::DisableMisplaced => 1,
        InstallStep::Done(_) => 0,
    }
}

impl LegacyAttempt {
    /// How many steps an attempt takes at most from here.
    pub open spec fn steps_left(self) -> nat {
        match self.phase {
            LegacyPhase::Move => 8,
            LegacyPhase::Draw => 7,
            LegacyPhase::Install { step, buffer } => 1 + install_steps(step),
            LegacyPhase::Done { assignment, released } => 0,
        }
    }

    /// Whether what is presented is the cursor that is installed.
    pub open spec fn presents(self, legacy: LegacyCursorState) -> bool {
        match self.phase {
            LegacyPhase::Done { assignment, released } => {
                &&& assignment matches LegacyCursorAssignment::Presented(presentation)
                    ==> legacy.active_presentation_spec() == Some(presentation)
                &&& assignment is Atomic ==> legacy.ownership is Atomic
                &&& released ==> assignment is Atomic
            },
            LegacyPhase::Move => legacy.ownership is Active,
            LegacyPhase::Install { step, buffer } => step is DisableReplaced
                ==> legacy.ownership is Active,
            LegacyPhase::Draw => true,
        }
    }

    /// The attempt as it begins: the element has to fit the cursor size, and the installed cursor
    /// is kept or moved if it shows the element already.
    pub open spec fn begin_spec(
        element: ElementInfo,
        output: OutputState,
        cursor_size: Size,
        legacy: Option<LegacyCursorState>,
    ) -> LegacyAttempt {
        let element_size = output.transform.transform_size_spec(element.geometry.size);
        let origin = cursor_plane_origin(
            element.location,
            cursor_size,
            output.geometry,
            output.transform,
        );
        LegacyAttempt {
            element,
            element_size,
            origin,
            plane_size: cursor_size,
            output,
            phase: if element_size.w > cursor_size.w || element_size.h > cursor_size.h {
                ended(LegacyCursorAssignment::Software)
            } else {
                match legacy {
                    None => ended(LegacyCursorAssignment::Software),
                    Some(legacy) => match legacy.plan_spec(
                        element,
                        element_size,
                        output.scale,
                        output.transform,
                        origin,
                    ) {
                        LegacyCursorPlan::Atomic => ended(LegacyCursorAssignment::Atomic),
                        LegacyCursorPlan::Keep(presentation) => ended(
                            LegacyCursorAssignment::Presented(presentation),
                        ),
                        LegacyCursorPlan::Move => LegacyPhase::Move,
                        LegacyCursorPlan::Install => LegacyPhase::Draw,
                    },
                }
            },
        }
    }

    pub fn begin(
        element: ElementInfo,
        output: OutputState,
        cursor_size: Size,
        legacy: Option<LegacyCursorState>,
    ) -> (r: LegacyAttempt)
        requires
            element.kind == Kind::Cursor,
            legacy_fits(element, output, cursor_size),
        ensures
            r == Self::begin_spec(element, output, cursor_size, legacy),
    {
        let element_size = output.transform.transform_size(element.geometry.size);
        let origin = cursor_plane_location(
            element.location,
            cursor_size,
            output.geometry,
            output.transform,
        );
        let mut phase = LegacyPhase::Done {
            assignment: LegacyCursorAssignment::Software,
            released: false,
        };
        if !(element_size.w > cursor_size.w || element_size.h > cursor_size.h) {
            if let Some(legacy) = legacy {
                phase = match legacy.plan(
                    element,
                    element_size,
                    output.scale,
                    output.transform,
                    origin,
                ) {
                    LegacyCursorPlan::Atomic => LegacyPhase::Done {
                        assignment: LegacyCursorAssignment::Atomic,
                        released: false,
                    },
                    LegacyCursorPlan::Keep(presentation) => LegacyPhase::Done {
                        assignment: LegacyCursorAssignment::Presented(presentation),
                        released: false,
                    },
                    LegacyCursorPlan::Move => LegacyPhase::Move,
                    LegacyCursorPlan::Install => LegacyPhase::Draw,
                };
            }
        }
        LegacyAttempt { element, element_size, origin, plane_size: cursor_size, output, phase }
    }

    pub open spec fn moved_phase(
        self,
        legacy: LegacyCursorState,
        result: Result<(), Option<i32>>,
    ) -> LegacyPhase {
        match legacy.move_result(self.origin, result) {
            LegacyCursorMoveResult::Moved(presentation) => ended(
                LegacyCursorAssignment::Presented(presentation),
            ),
            _ => LegacyPhase::Draw,
        }
    }

    /// Takes note of how the move ended. If it failed a new buffer is installed.
    pub fn moved(&mut self, legacy: &mut LegacyCursorState, result: Result<(), Option<i32>>)
        requires
            old(legacy).wf(),
            old(self).phase == LegacyPhase::Move,
        ensures
            *final(legacy) == old(legacy).after_move(old(self).origin, result),
            final(legacy).wf(),
            *final(self) == (LegacyAttempt {
                phase: old(self).moved_phase(*old(legacy), result),
                ..*old(self)
            }),
    {
        self.phase = match legacy.finish_move(self.origin, result) {
            LegacyCursorMoveResult::Moved(presentation) => LegacyPhase::Done {
                assignment: LegacyCursorAssignment::Presented(presentation),
                released: false,
            },
            _ => LegacyPhase::Draw,
        };
    }

    pub open spec fn drawn_phase(legacy: LegacyCursorState, buffer: Option<u64>) -> LegacyPhase {
        match buffer {
            None => ended(LegacyCursorAssignment::Software),
            Some(buffer) => LegacyPhase::Install {
                step: install_start(legacy.ownership is Active, legacy.legacy_succeeded),
                buffer,
            },
        }
    }

    /// Takes the buffer with the cursor, if it could be drawn.
    pub fn drawn(&mut self, legacy: &LegacyCursorState, buffer: Option<u64>)
        requires
            old(self).phase == LegacyPhase::Draw,
        ensures
            *final(self) == (LegacyAttempt {
                phase: Self::drawn_phase(*legacy, buffer),
                ..*old(self)
            }),
    {
        self.phase = match buffer {
            None => LegacyPhase::Done {
                assignment: LegacyCursorAssignment::Software,
                released: false,
            },
            Some(buffer) => LegacyPhase::Install {
                step: InstallStep::start(
                    legacy.active_presentation().is_some(),
                    legacy.legacy_succeeded,
                ),
                buffer,
            },
        };
    }

    /// The cursor that becomes active if the installation succeeds.
    pub open spec fn fresh(self, legacy: LegacyCursorState, buffer: u64) -> LegacyCursorActive {
        legacy.fresh(
            buffer,
            self.element,
            self.element_size,
            self.output.scale,
            self.output.transform,
            self.origin,
            self.plane_size,
        )
    }

    /// Takes note of how an ioctl of the installation ended.
    pub fn installed(&mut self, legacy: &mut LegacyCursorState, result: Result<(), Option<i32>>)
        requires
            old(legacy).wf(),
            old(self).phase is Install,
        ensures
            final(legacy).wf(),
            old(self).phase matches LegacyPhase::Install { step, buffer } && match install_next(
                step,
                old(legacy).legacy_succeeded,
                result,
            ) {
                InstallStep::Done(outcome) => {
                    &&& *final(legacy) == old(legacy).after_install(
                        outcome,
                        old(self).fresh(*old(legacy), buffer),
                    )
                    &&& *final(self) == (LegacyAttempt {
                        phase: LegacyPhase::Done {
                            assignment: old(legacy).install_assignment(
                                outcome,
                                old(self).fresh(*old(legacy), buffer),
                            ),
                            released: outcome == LegacyCursorInstallResult::Atomic,
                        },
                        ..*old(self)
                    })
                },
                next => {
                    &&& *final(legacy) == *old(legacy)
                    &&& *final(self) == (LegacyAttempt {
                        phase: LegacyPhase::Install { step: next, buffer },
                        ..*old(self)
                    })
                },
            },
    {
        if let LegacyPhase::Install { step, buffer } = self.phase {
            match step.next(legacy.legacy_succeeded, result) {
                InstallStep::Done(outcome) => {
                    let released = outcome == LegacyCursorInstallResult::Atomic;
                    let assignment = legacy.finish_install(
                        outcome,
                        buffer,
                        self.element,
                        self.element_size,
                        self.output.scale,
                        self.output.transform,
                        self.origin,
                        self.plane_size,
                    );
                    self.phase = LegacyPhase::Done { assignment, released };
                },
                next => {
                    self.phase = LegacyPhase::Install { step: next, buffer };
                },
            }
        }
    }

    pub open spec fn request_spec(self) -> LegacyRequest {
        match self.phase {
            LegacyPhase::Move => LegacyRequest::MoveCursor(self.origin),
            LegacyPhase::Draw => LegacyRequest::DrawCursor {
                element_size: self.element_size,
                plane_size: self.plane_size,
            },
            LegacyPhase::Install { step, buffer } => match step {
                InstallStep::DisableReplaced | InstallStep::DisableMisplaced => {
                    LegacyRequest::DisableCursor
                },
                InstallStep::MoveFirst | InstallStep::MoveInstalled => LegacyRequest::MoveCursor(
                    self.origin,
                ),
                InstallStep::Install | InstallStep::Done(_) => LegacyRequest::InstallCursor(buffer),
            },
            LegacyPhase::Done { assignment, released } => LegacyRequest::Finished {
                assignment,
                released,
            },
        }
    }

    /// What has to be done next.
    pub fn request(&self) -> (r: LegacyRequest)
        ensures
            r == self.request_spec(),
    {
        match self.phase {
            LegacyPhase::Move => LegacyRequest::MoveCursor(self.origin),
            LegacyPhase::Draw => LegacyRequest::DrawCursor {
                element_size: self.element_size,
                plane_size: self.plane_size,
            },
            LegacyPhase::Install { step, buffer } => match step {
                InstallStep::DisableReplaced | InstallStep::DisableMisplaced => {
                    LegacyRequest::DisableCursor
                },
                InstallStep::MoveFirst | InstallStep::MoveInstalled => LegacyRequest::MoveCursor(
                    self.origin,
                ),
                InstallStep::Install | InstallStep::Done(_) => LegacyRequest::InstallCursor(buffer),
            },
            LegacyPhase::Done { assignment, released } => LegacyRequest::Finished {
                assignment,
                released,
            },
        }
    }
}

/// A cursor whose element did not change is shown without drawing anything: kept where it is, or
/// moved while the driver allows that.
pub proof fn unchanged_cursor_is_not_drawn_again(
    element: ElementInfo,
    output: OutputState,
    cursor_size: Size,
    legacy: LegacyCursorState,
    active: LegacyCursorActive,
)
    requires
        legacy.ownership == crate::legacy_cursor::LegacyCursorOwnership::Active(active),
        crate::legacy_cursor::shows(
            active,
            element,
            output.transform.transform_size_spec(element.geometry.size),
            output.scale,
            output.transform,
        ),
        !legacy.fast_motion_permanently_rejected,
    ensures
        LegacyAttempt::begin_spec(element, output, cursor_size, Some(legacy)).phase
            != LegacyPhase::Draw,
{
}

} // verus!
