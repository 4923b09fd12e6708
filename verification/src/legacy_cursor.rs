//! The cursor presented through the legacy cursor ioctls, outside of atomic frames.

use vstd::prelude::*;
use crate::element::{ElementInfo, Scale};
use crate::geometry::{Point, Size, Transform};

verus! {

/// Who drives the cursor planes.
#[derive(Clone, Copy, Debug, PartialEq, Eq, Structural)]
pub enum CursorPlanePolicy {
    /// Cursor planes are part of atomic frames.
    Atomic,
    /// Cursor planes are left to the legacy cursor ioctls.
    Legacy,
}

impl CursorPlanePolicy {
    pub open spec fn reserves_spec(self) -> bool {
        self == CursorPlanePolicy::Legacy
    }

    /// Whether atomic frames have to leave the cursor planes alone.
    pub fn reserves_legacy_cursor(self) -> (r: bool)
        ensures
            r == self.reserves_spec(),
    {
        match self {
            CursorPlanePolicy::Legacy => true,
            CursorPlanePolicy::Atomic => false,
        }
    }
}

/// Capability token for moving one installed legacy cursor.
#[derive(Clone, Copy, Debug, PartialEq, Eq, Hash, Structural)]
pub struct LegacyCursorToken {
    pub value: u64,
}

/// Identity and placement of a cursor presented through legacy DRM ioctls.
#[derive(Clone, Copy, Debug, PartialEq, Eq, Structural)]
pub struct LegacyCursorPresentation {
    /// Token accepted for moving the cursor.
    pub token: LegacyCursorToken,
    /// Current physical cursor-plane origin.
    pub physical_origin: Point,
    /// Render element presented by the cursor plane.
    pub element_id: u64,
    /// Commit presented by the cursor plane.
    pub commit: u64,
    /// Buffer size installed on the legacy cursor plane.
    pub plane_size: Size,
}

/// Result of a cursor-only legacy DRM move.
#[derive(Clone, Copy, Debug, PartialEq, Eq, Structural)]
pub enum LegacyCursorMoveResult {
    /// The cursor moved and this is its updated presentation identity.
    Moved(LegacyCursorPresentation),
    /// The token belongs to an earlier cursor installation.
    StaleToken,
    /// No legacy cursor is currently installed.
    NotActive,
    /// The driver permanently rejected cursor-only legacy moves.
    Rejected,
    /// The driver refused this move for now. The cursor stays installed where it is.
    Busy,
}

/// An installed legacy cursor.
#[derive(Clone, Copy, Debug, PartialEq, Eq, Structural)]
pub struct LegacyCursorActive {
    /// The buffer that has to stay alive.
    pub buffer: u64,
    pub presentation: LegacyCursorPresentation,
    pub element_size: Size,
    pub output_scale: Scale,
    pub output_transform: Transform,
}

/// Who has the cursor.
#[derive(Clone, Copy, Debug, PartialEq, Eq, Structural)]
pub enum LegacyCursorOwnership {
    /// A legacy cursor may be installed.
    Candidate,
    /// A legacy cursor is installed.
    Active(LegacyCursorActive),
    /// A legacy cursor was installed and has been taken off.
    Disabled,
    /// The cursor belongs to atomic frames.
    Atomic,
}

/// How the cursor element of a frame is shown.
#[derive(Clone, Copy, Debug, PartialEq, Eq, Structural)]
pub enum LegacyCursorAssignment {
    Presented(LegacyCursorPresentation),
    Software,
    Atomic,
}

/// How the installation of a legacy cursor ended.
#[derive(Clone, Copy, Debug, PartialEq, Eq, Structural)]
pub enum LegacyCursorInstallResult {
    Installed,
    PreserveActive,
    DisabledSoftware,
    CandidateSoftware,
    Atomic,
}

/// What a failed cursor ioctl means.
#[derive(Clone, Copy, Debug, PartialEq, Eq, Structural)]
pub enum LegacyCursorIoError {
    /// The driver will never do it.
    Permanent,
    /// The session may not touch the device now.
    Inactive,
    /// It may work another time.
    Busy,
}

pub open spec fn classified(raw_os_error: Option<i32>) -> LegacyCursorIoError {
    match raw_os_error {
        Some(code) => if code == 22 || code == 25 || code == 38 || code == 95 {
            LegacyCursorIoError::Permanent
        } else if code == 1 || code == 13 {
            LegacyCursorIoError::Inactive
        } else {
            LegacyCursorIoError::Busy
        },
        None => LegacyCursorIoError::Busy,
    }
}

/// What a failed cursor ioctl means, by the error number of the system: an invalid, unknown or
/// unsupported request stays so, a missing permission comes back with the session.
pub fn classify_legacy_cursor_error(raw_os_error: Option<i32>) -> (r: LegacyCursorIoError)
    ensures
        r == classified(raw_os_error),
{
    match raw_os_error {
        Some(code) => if code == 22 || code == 25 || code == 38 || code == 95 {
            LegacyCursorIoError::Permanent
        } else if code == 1 || code == 13 {
            LegacyCursorIoError::Inactive
        } else {
            LegacyCursorIoError::Busy
        },
        None => LegacyCursorIoError::Busy,
    }
}

/// The ioctl to issue next for an installation, or how it ended.
#[derive(Clone, Copy, Debug, PartialEq, Eq, Structural)]
pub enum InstallStep {
    /// Take the cursor off that is to be replaced.
    DisableReplaced,
    /// Move the plane before the buffer is set.
    MoveFirst,
    /// Set the buffer.
    Install,
    /// Move the plane after the buffer was set for the first time.
    MoveInstalled,
    /// Take a cursor off that could not be placed.
    DisableMisplaced,
    Done(LegacyCursorInstallResult),
}

pub open spec fn install_start(replacing_active: bool, legacy_succeeded: bool) -> InstallStep {
    if replacing_active {
        InstallStep::DisableReplaced
    } else if legacy_succeeded {
        InstallStep::MoveFirst
    } else {
        InstallStep::Install
    }
}

pub open spec fn install_next(
    step: InstallStep,
    legacy_succeeded: bool,
    result: Result<(), Option<i32>>,
) -> InstallStep {
    match step {
        InstallStep::DisableReplaced => match result {
            Ok(_) => if legacy_succeeded {
                InstallStep::MoveFirst
            } else {
                InstallStep::Install
            },
            Err(_) => InstallStep::Done(LegacyCursorInstallResult::PreserveActive),
        },
        InstallStep::MoveFirst => match result {
            Ok(_) => InstallStep::Install,
            Err(_) => InstallStep::Done(LegacyCursorInstallResult::DisabledSoftware),
        },
        InstallStep::Install => match result {
            Ok(_) => if legacy_succeeded {
                InstallStep::Done(LegacyCursorInstallResult::Installed)
            } else {
                InstallStep::MoveInstalled
            },
            Err(error) => if legacy_succeeded {
                InstallStep::Done(LegacyCursorInstallResult::DisabledSoftware)
            } else if classified(error) == LegacyCursorIoError::Permanent {
                InstallStep::Done(LegacyCursorInstallResult::Atomic)
            } else {
                InstallStep::Done(LegacyCursorInstallResult::CandidateSoftware)
            },
        },
        InstallStep::MoveInstalled => match result {
            Ok(_) => InstallStep::Done(LegacyCursorInstallResult::Installed),
            Err(_) => InstallStep::DisableMisplaced,
        },
        InstallStep::DisableMisplaced => InstallStep::Done(
            LegacyCursorInstallResult::DisabledSoftware,
        ),
        InstallStep::Done(result) => InstallStep::Done(result),
    }
}

impl InstallStep {
    /// The first ioctl of an installation.
    pub fn start(replacing_active: bool, legacy_succeeded: bool) -> (r: InstallStep)
        ensures
            r == install_start(replacing_active, legacy_succeeded),
    {
        if replacing_active {
            InstallStep::DisableReplaced
        } else if legacy_succeeded {
            InstallStep::MoveFirst
        } else {
            InstallStep::Install
        }
    }

    /// What follows once the ioctl of this step returned. An error carries the error number of
    /// the system.
    pub fn next(self, legacy_succeeded: bool, result: Result<(), Option<i32>>) -> (r: InstallStep)
        ensures
            r == install_next(self, legacy_succeeded, result),
    {
        match self {
            InstallStep::DisableReplaced => {
                if result.is_err() {
                    InstallStep::Done(LegacyCursorInstallResult::PreserveActive)
                } else if legacy_succeeded {
                    InstallStep::MoveFirst
                } else {
                    InstallStep::Install
                }
            },
            InstallStep::MoveFirst => {
                if result.is_err() {
                    InstallStep::Done(LegacyCursorInstallResult::DisabledSoftware)
                } else {
                    InstallStep::Install
                }
            },
            InstallStep::Install => match result {
                Ok(_) => if legacy_succeeded {
                    InstallStep::Done(LegacyCursorInstallResult::Installed)
                } else {
                    InstallStep::MoveInstalled
                },
                Err(error) => if !legacy_succeeded && classify_legacy_cursor_error(error)
                    == LegacyCursorIoError::Permanent {
                    InstallStep::Done(LegacyCursorInstallResult::Atomic)
                } else if legacy_succeeded {
                    InstallStep::Done(LegacyCursorInstallResult::DisabledSoftware)
                } else {
                    InstallStep::Done(LegacyCursorInstallResult::CandidateSoftware)
                },
            },
            InstallStep::MoveInstalled => {
                if result.is_err() {
                    InstallStep::DisableMisplaced
                } else {
                    InstallStep::Done(LegacyCursorInstallResult::Installed)
                }
            },
            InstallStep::DisableMisplaced => InstallStep::Done(
                LegacyCursorInstallResult::DisabledSoftware,
            ),
            InstallStep::Done(result) => InstallStep::Done(result),
        }
    }
}

/// The first installation sets the buffer and then places it; a replacement disables, moves and
/// installs. A failed disable is followed by nothing.
pub proof fn installation_order()
    ensures
        install_start(false, false) == InstallStep::Install,
        install_next(InstallStep::Install, false, Ok(())) == InstallStep::MoveInstalled,
        install_next(InstallStep::MoveInstalled, false, Ok(())) == InstallStep::Done(
            LegacyCursorInstallResult::Installed,
        ),
        install_start(true, true) == InstallStep::DisableReplaced,
        install_next(InstallStep::DisableReplaced, true, Ok(())) == InstallStep::MoveFirst,
        install_next(InstallStep::MoveFirst, true, Ok(())) == InstallStep::Install,
        install_next(InstallStep::Install, true, Ok(())) == InstallStep::Done(
            LegacyCursorInstallResult::Installed,
        ),
        forall|legacy_succeeded: bool, error: Option<i32>| #[trigger]
            install_next(InstallStep::DisableReplaced, legacy_succeeded, Err(error))
                == InstallStep::Done(LegacyCursorInstallResult::PreserveActive),
{
}

/// The cursor plane is released to atomic frames by nothing but a permanent failure to set the
/// buffer before a legacy cursor was ever installed.
pub proof fn only_a_permanent_first_failure_releases_the_plane(
    step: InstallStep,
    legacy_succeeded: bool,
    result: Result<(), Option<i32>>,
)
    requires
        !(step is Done),
    ensures
        install_next(step, legacy_succeeded, result) == InstallStep::Done(
            LegacyCursorInstallResult::Atomic,
        ) <==> (step == InstallStep::Install && !legacy_succeeded && (result matches Err(error)
            && classified(error) == LegacyCursorIoError::Permanent)),
{
}

/// The cursor ioctls of a device. An error carries the error number of the system, if there is one.
pub trait LegacyCursorIo<B> {
    /// Takes the cursor off.
    fn disable(&self) -> Result<(), Option<i32>>;

    /// Shows a buffer as the cursor.
    fn install(&self, buffer: &B) -> Result<(), Option<i32>>;

    /// Moves the cursor.
    fn move_to(&self, origin: Point) -> Result<(), Option<i32>>;
}

/// A cursor ioctl that was issued, and what came of it.
pub enum CursorCall<B> {
    Disable { answer: Result<(), Option<i32>> },
    Install { buffer: B, answer: Result<(), Option<i32>> },
    MoveTo { origin: Point, answer: Result<(), Option<i32>> },
}

/// The cursor ioctls of a device, with a record of those that were issued. Nothing but the methods
/// below writes the record.
pub struct RecordedIo<'a, B, I> {
    io: &'a I,
    calls: Ghost<Seq<CursorCall<B>>>,
}

impl<'a, B, I> RecordedIo<'a, B, I> {
    /// The ioctls that were issued, in order.
    pub closed spec fn calls(&self) -> Seq<CursorCall<B>> {
        self.calls@
    }

    /// The device itself.
    pub closed spec fn held(&self) -> I {
        *self.io
    }
}

impl<'a, B, I: LegacyCursorIo<B>> RecordedIo<'a, B, I> {
    pub fn new(io: &'a I) -> (r: RecordedIo<'a, B, I>)
        ensures
            r.held() == *io,
            r.calls().len() == 0,
    {
        RecordedIo { io, calls: Ghost(Seq::empty()) }
    }

    pub fn disable(&mut self) -> (r: Result<(), Option<i32>>)
        ensures
            final(self).calls() == old(self).calls().push(CursorCall::Disable { answer: r }),
    {
        let r = self.io.disable();
        self.calls = Ghost(self.calls@.push(CursorCall::Disable { answer: r }));
        r
    }

    pub fn install(&mut self, buffer: &B) -> (r: Result<(), Option<i32>>)
        ensures
            final(self).calls() == old(self).calls().push(
                CursorCall::Install { buffer: *buffer, answer: r },
            ),
    {
        let r = self.io.install(buffer);
        self.calls = Ghost(self.calls@.push(CursorCall::Install { buffer: *buffer, answer: r }));
        r
    }

    pub fn move_to(&mut self, origin: Point) -> (r: Result<(), Option<i32>>)
        ensures
            final(self).calls() == old(self).calls().push(
                CursorCall::MoveTo { origin, answer: r },
            ),
    {
        let r = self.io.move_to(origin);
        self.calls = Ghost(self.calls@.push(CursorCall::MoveTo { origin, answer: r }));
        r
    }
}

/// The answer to the ioctl of a step, if that is what was issued.
pub open spec fn step_answer<B>(
    step: InstallStep,
    buffer: B,
    origin: Point,
    call: CursorCall<B>,
) -> Option<Result<(), Option<i32>>> {
    match (step, call) {
        (InstallStep::DisableReplaced, CursorCall::Disable { answer }) => Some(answer),
        (InstallStep::DisableMisplaced, CursorCall::Disable { answer }) => Some(answer),
        (InstallStep::MoveFirst, CursorCall::MoveTo { origin: o, answer }) => if o == origin {
            Some(answer)
        } else {
            None
        },
        (InstallStep::MoveInstalled, CursorCall::MoveTo { origin: o, answer }) => if o == origin {
            Some(answer)
        } else {
            None
        },
        (InstallStep::Install, CursorCall::Install { buffer: b, answer }) => if b == buffer {
            Some(answer)
        } else {
            None
        },
        _ => None,
    }
}

/// How an installation ends from a step on, if the ioctls are those that its steps ask for, up to
/// the end.
pub open spec fn installed_by<B>(
    step: InstallStep,
    legacy_succeeded: bool,
    buffer: B,
    origin: Point,
    calls: Seq<CursorCall<B>>,
) -> Option<LegacyCursorInstallResult>
    decreases calls.len(),
{
    match step {
        InstallStep::Done(result) => if calls.len() == 0 {
            Some(result)
        } else {
            None
        },
        _ => if calls.len() == 0 {
            None
        } else {
            match step_answer(step, buffer, origin, calls[0]) {
                None => None,
                Some(answer) => installed_by(
                    install_next(step, legacy_succeeded, answer),
                    legacy_succeeded,
                    buffer,
                    origin,
                    calls.skip(1),
                ),
            }
        },
    }
}

/// How many ioctls are left at most.
pub open spec fn ioctls_left(step: InstallStep) -> nat {
    match step {
        InstallStep::DisableReplaced => 5,
        InstallStep::MoveFirst => 4,
        InstallStep::Install => 3,
        InstallStep::MoveInstalled => 2,
        InstallStep::DisableMisplaced => 1,
        InstallStep::Done(_) => 0,
    }
}

fn run_installation<'a, B, I: LegacyCursorIo<B>>(
    io: &mut RecordedIo<'a, B, I>,
    buffer: &B,
    origin: Point,
    legacy_succeeded: bool,
    step: InstallStep,
) -> (r: LegacyCursorInstallResult)
    ensures
        old(io).calls().is_prefix_of(final(io).calls()),
        installed_by(
            step,
            legacy_succeeded,
            *buffer,
            origin,
            final(io).calls().skip(old(io).calls().len() as int),
        ) == Some(r),
    decreases ioctls_left(step),
{
    let ghost start = io.calls();
    let answer = match step {
        InstallStep::Done(result) => {
            assert(io.calls().skip(start.len() as int) =~= Seq::empty());
            return result;
        },
        InstallStep::DisableReplaced => io.disable(),
        InstallStep::DisableMisplaced => io.disable(),
        InstallStep::MoveFirst => io.move_to(origin),
        InstallStep::MoveInstalled => io.move_to(origin),
        InstallStep::Install => io.install(buffer),
    };
    let ghost issued = io.calls();
    let next = step.next(legacy_succeeded, answer);
    let r = run_installation(io, buffer, origin, legacy_succeeded, next);
    proof {
        let calls = io.calls().skip(start.len() as int);
        assert(calls[0] == issued.last());
        assert(calls.skip(1) =~= io.calls().skip(issued.len() as int));
    }
    r
}

/// Installs a cursor. A cursor that was installed before is replaced by way of taking it off and
/// moving the plane first, so that the new one never shows at the old place. The ioctls that are
/// issued, and their answers, decide how it ends.
pub fn install_legacy_cursor<'a, B, I: LegacyCursorIo<B>>(
    io: &mut RecordedIo<'a, B, I>,
    buffer: &B,
    origin: Point,
    replacing_active: bool,
    legacy_succeeded: bool,
) -> (r: LegacyCursorInstallResult)
    ensures
        old(io).calls().is_prefix_of(final(io).calls()),
        installed_by(
            install_start(replacing_active, legacy_succeeded),
            legacy_succeeded,
            *buffer,
            origin,
            final(io).calls().skip(old(io).calls().len() as int),
        ) == Some(r),
{
    let step = InstallStep::start(replacing_active, legacy_succeeded);
    run_installation(io, buffer, origin, legacy_succeeded, step)
}

pub open spec fn call_answer<B>(call: CursorCall<B>) -> Result<(), Option<i32>> {
    match call {
        CursorCall::Disable { answer } => answer,
        CursorCall::Install { buffer, answer } => answer,
        CursorCall::MoveTo { origin, answer } => answer,
    }
}

pub open spec fn all_accepted<B>(calls: Seq<CursorCall<B>>) -> bool {
    forall|i: int| 0 <= i < calls.len() ==> call_answer(#[trigger] calls[i]) is Ok
}

/// A first installation sets the buffer and then places it, and is undone if it can not be placed; a
/// replacement takes the old cursor off, moves, and sets the new one. Nothing follows an old cursor
/// that can not be taken off. Only a permanent refusal of the first buffer ever leaves cursors to
/// atomic frames.
pub proof fn installations_end_as_their_ioctls_say<B>(
    replacing_active: bool,
    legacy_succeeded: bool,
    buffer: B,
    origin: Point,
    calls: Seq<CursorCall<B>>,
    r: LegacyCursorInstallResult,
)
    requires
        installed_by(
            install_start(replacing_active, legacy_succeeded),
            legacy_succeeded,
            buffer,
            origin,
            calls,
        ) == Some(r),
    ensures
        r == LegacyCursorInstallResult::Installed <==> all_accepted(calls),
        r == LegacyCursorInstallResult::PreserveActive <==> replacing_active && calls.len() == 1
            && calls[0] is Disable && call_answer(calls[0]) is Err,
        r == LegacyCursorInstallResult::Atomic <==> !legacy_succeeded && calls.last() is Install
            && (call_answer(calls.last()) matches Err(error) && classified(error)
            == LegacyCursorIoError::Permanent),
        r == LegacyCursorInstallResult::CandidateSoftware <==> !legacy_succeeded
            && calls.last() is Install && (call_answer(calls.last()) matches Err(error)
            && classified(error) != LegacyCursorIoError::Permanent),
        !replacing_active && !legacy_succeeded && all_accepted(calls) ==> calls.len() == 2
            && calls[0] == (CursorCall::Install { buffer, answer: call_answer(calls[0]) }) && calls[1]
            == (CursorCall::<B>::MoveTo { origin, answer: call_answer(calls[1]) }),
        replacing_active && legacy_succeeded && all_accepted(calls) ==> calls.len() == 3
            && calls[0] is Disable && calls[1] == (CursorCall::<B>::MoveTo {
            origin,
            answer: call_answer(calls[1]),
        }) && calls[2] == (CursorCall::Install { buffer, answer: call_answer(calls[2]) }),
        !replacing_active && !legacy_succeeded && calls.len() >= 2 && call_answer(calls[1]) is Err
            ==> r == LegacyCursorInstallResult::DisabledSoftware && calls.len() == 3
            && calls[0] is Install && calls[1] is MoveTo && calls[2] is Disable,
{
    reveal_with_fuel(installed_by, 7);
    lemma_call_count(
        install_start(replacing_active, legacy_succeeded),
        legacy_succeeded,
        buffer,
        origin,
        calls,
    );
    assert(calls.len() > 0);
    if all_accepted(calls) {
        assert(call_answer(calls[0]) is Ok);
        if calls.len() > 1 {
            assert(call_answer(calls[1]) is Ok);
        }
        if calls.len() > 2 {
            assert(call_answer(calls[2]) is Ok);
        }
        if calls.len() > 3 {
            assert(call_answer(calls[3]) is Ok);
        }
    }
}

proof fn lemma_call_count<B>(
    step: InstallStep,
    legacy_succeeded: bool,
    buffer: B,
    origin: Point,
    calls: Seq<CursorCall<B>>,
)
    requires
        installed_by(step, legacy_succeeded, buffer, origin, calls) is Some,
    ensures
        calls.len() <= ioctls_left(step),
    decreases calls.len(),
{
    if calls.len() > 0 {
        let answer = step_answer(step, buffer, origin, calls[0])->0;
        lemma_call_count(
            install_next(step, legacy_succeeded, answer),
            legacy_succeeded,
            buffer,
            origin,
            calls.skip(1),
        );
    }
}

/// What a frame has to do for its cursor element.
#[derive(Clone, Copy, Debug, PartialEq, Eq, Structural)]
pub enum LegacyCursorPlan {
    /// Leave it to atomic frames.
    Atomic,
    /// The cursor is shown already, at the right place.
    Keep(LegacyCursorPresentation),
    /// The cursor is shown already and only has to be moved.
    Move,
    /// A new buffer has to be installed.
    Install,
}

/// The state of the legacy cursor.
#[derive(Clone, Copy, Debug, PartialEq, Eq, Structural)]
pub struct LegacyCursorState {
    pub ownership: LegacyCursorOwnership,
    pub next_token: u64,
    /// A legacy cursor was installed before.
    pub legacy_succeeded: bool,
    /// The driver does not move cursors on their own.
    pub fast_motion_permanently_rejected: bool,
}

/// The token value that follows: zero is never used.
pub open spec fn following(value: u64) -> u64 {
    if value == u64::MAX {
        1
    } else {
        (value + 1) as u64
    }
}

pub open spec fn initial_ownership(policy: CursorPlanePolicy) -> LegacyCursorOwnership {
    if policy.reserves_spec() {
        LegacyCursorOwnership::Candidate
    } else {
        LegacyCursorOwnership::Atomic
    }
}

/// Whether the active cursor shows this content of this element in the same way.
pub open spec fn shows(
    active: LegacyCursorActive,
    element: ElementInfo,
    element_size: Size,
    output_scale: Scale,
    output_transform: Transform,
) -> bool {
    active.presentation.element_id == element.id && active.presentation.commit == element.commit
        && active.element_size == element_size && active.output_scale.same_spec(output_scale)
        && active.output_transform == output_transform
}

impl LegacyCursorState {
    /// Zero is no token, the installed cursor does not hold the next token, and a cursor that is
    /// or was installed has succeeded.
    pub open spec fn wf(self) -> bool {
        &&& self.next_token >= 1
        &&& self.ownership matches LegacyCursorOwnership::Active(active)
            ==> active.presentation.token.value != self.next_token
            && active.presentation.token.value >= 1 && self.legacy_succeeded
        &&& self.ownership is Disabled ==> self.legacy_succeeded
    }

    pub open spec fn initial(policy: CursorPlanePolicy) -> LegacyCursorState {
        LegacyCursorState {
            ownership: initial_ownership(policy),
            next_token: 1,
            legacy_succeeded: false,
            fast_motion_permanently_rejected: false,
        }
    }

    pub fn new(policy: CursorPlanePolicy) -> (r: LegacyCursorState)
        ensures
            r == Self::initial(policy),
            r.wf(),
    {
        LegacyCursorState {
            ownership: if policy.reserves_legacy_cursor() {
                LegacyCursorOwnership::Candidate
            } else {
                LegacyCursorOwnership::Atomic
            },
            next_token: 1,
            legacy_succeeded: false,
            fast_motion_permanently_rejected: false,
        }
    }

    pub open spec fn invalidated(self, policy: CursorPlanePolicy) -> LegacyCursorState {
        LegacyCursorState {
            ownership: initial_ownership(policy),
            next_token: following(self.next_token),
            legacy_succeeded: false,
            fast_motion_permanently_rejected: false,
        }
    }

    /// Forgets the installed cursor and what was learned about the driver, and uses up a token.
    pub fn invalidate(&mut self, policy: CursorPlanePolicy)
        requires
            old(self).wf(),
        ensures
            *final(self) == old(self).invalidated(policy),
            final(self).wf(),
    {
        self.ownership = if policy.reserves_legacy_cursor() {
            LegacyCursorOwnership::Candidate
        } else {
            LegacyCursorOwnership::Atomic
        };
        self.legacy_succeeded = false;
        self.fast_motion_permanently_rejected = false;
        self.advance_token();
    }

    fn advance_token(&mut self)
        ensures
            *final(self) == (LegacyCursorState {
                next_token: following(old(self).next_token),
                ..*old(self)
            }),
    {
        if self.next_token == u64::MAX {
            self.next_token = 1;
        } else {
            self.next_token = self.next_token + 1;
        }
    }

    /// Hands out the next token.
    pub fn token(&mut self) -> (r: LegacyCursorToken)
        ensures
            r.value == old(self).next_token,
            *final(self) == (LegacyCursorState {
                next_token: following(old(self).next_token),
                ..*old(self)
            }),
    {
        let token = LegacyCursorToken { value: self.next_token };
        self.advance_token();
        token
    }

    /// Why a move with this token can not even be tried, if it can not.
    pub open spec fn move_refusal_spec(self, token: LegacyCursorToken) -> Option<
        LegacyCursorMoveResult,
    > {
        if self.fast_motion_permanently_rejected {
            Some(LegacyCursorMoveResult::Rejected)
        } else {
            match self.ownership {
                LegacyCursorOwnership::Active(active) => if active.presentation.token != token {
                    Some(LegacyCursorMoveResult::StaleToken)
                } else {
                    None
                },
                _ => Some(LegacyCursorMoveResult::NotActive),
            }
        }
    }

    pub fn move_refusal(&self, token: LegacyCursorToken) -> (r: Option<LegacyCursorMoveResult>)
        ensures
            r == self.move_refusal_spec(token),
    {
        if self.fast_motion_permanently_rejected {
            return Some(LegacyCursorMoveResult::Rejected);
        }
        match self.ownership {
            LegacyCursorOwnership::Active(active) => if active.presentation.token != token {
                Some(LegacyCursorMoveResult::StaleToken)
            } else {
                None
            },
            _ => Some(LegacyCursorMoveResult::NotActive),
        }
    }

    /// The active cursor at another place.
    pub open spec fn moved(active: LegacyCursorActive, origin: Point) -> LegacyCursorActive {
        LegacyCursorActive {
            presentation: LegacyCursorPresentation {
                physical_origin: origin,
                ..active.presentation
            },
            ..active
        }
    }

    pub open spec fn after_move(
        self,
        physical_origin: Point,
        result: Result<(), Option<i32>>,
    ) -> LegacyCursorState {
        match result {
            Ok(_) => match self.ownership {
                LegacyCursorOwnership::Active(active) => LegacyCursorState {
                    ownership: LegacyCursorOwnership::Active(Self::moved(active, physical_origin)),
                    ..self
                },
                _ => self,
            },
            Err(error) => if classified(error) == LegacyCursorIoError::Permanent {
                LegacyCursorState { fast_motion_permanently_rejected: true, ..self }
            } else {
                self
            },
        }
    }

    pub open spec fn move_result(
        self,
        physical_origin: Point,
        result: Result<(), Option<i32>>,
    ) -> LegacyCursorMoveResult {
        match result {
            Ok(_) => match self.ownership {
                LegacyCursorOwnership::Active(active) => LegacyCursorMoveResult::Moved(
                    Self::moved(active, physical_origin).presentation,
                ),
                _ => LegacyCursorMoveResult::NotActive,
            },
            Err(error) => if classified(error) == LegacyCursorIoError::Permanent {
                LegacyCursorMoveResult::Rejected
            } else {
                LegacyCursorMoveResult::Busy
            },
        }
    }

    /// Takes note of how the move ioctl ended.
    pub fn finish_move(&mut self, physical_origin: Point, result: Result<(), Option<i32>>) -> (r:
        LegacyCursorMoveResult)
        requires
            old(self).wf(),
        ensures
            *final(self) == old(self).after_move(physical_origin, result),
            r == old(self).move_result(physical_origin, result),
            final(self).wf(),
    {
        match result {
            Ok(_) => match self.ownership {
                LegacyCursorOwnership::Active(active) => {
                    let mut moved = active;
                    moved.presentation.physical_origin = physical_origin;
                    self.ownership = LegacyCursorOwnership::Active(moved);
                    LegacyCursorMoveResult::Moved(moved.presentation)
                },
                _ => LegacyCursorMoveResult::NotActive,
            },
            Err(error) => if classify_legacy_cursor_error(error) == LegacyCursorIoError::Permanent {
                self.fast_motion_permanently_rejected = true;
                LegacyCursorMoveResult::Rejected
            } else {
                LegacyCursorMoveResult::Busy
            },
        }
    }

    pub open spec fn active_presentation_spec(self) -> Option<LegacyCursorPresentation> {
        match self.ownership {
            LegacyCursorOwnership::Active(active) => Some(active.presentation),
            _ => None,
        }
    }

    /// The presentation of the installed cursor.
    pub fn active_presentation(&self) -> (r: Option<LegacyCursorPresentation>)
        ensures
            r == self.active_presentation_spec(),
    {
        match self.ownership {
            LegacyCursorOwnership::Active(active) => Some(active.presentation),
            _ => None,
        }
    }

    pub open spec fn after_disable(self, succeeded: bool) -> LegacyCursorState {
        if self.ownership is Active && succeeded {
            LegacyCursorState { ownership: LegacyCursorOwnership::Disabled, ..self }
        } else {
            self
        }
    }

    /// Takes note of how taking the cursor off ended. A cursor that could not be taken off is
    /// still shown, and handed back.
    pub fn finish_disable(&mut self, succeeded: bool) -> (r: Option<LegacyCursorPresentation>)
        requires
            old(self).wf(),
        ensures
            *final(self) == old(self).after_disable(succeeded),
            r == (if succeeded {
                None
            } else {
                old(self).active_presentation_spec()
            }),
            final(self).wf(),
    {
        match self.ownership {
            LegacyCursorOwnership::Active(active) => if succeeded {
                self.ownership = LegacyCursorOwnership::Disabled;
                None
            } else {
                Some(active.presentation)
            },
            _ => None,
        }
    }

    pub open spec fn plan_spec(
        self,
        element: ElementInfo,
        element_size: Size,
        output_scale: Scale,
        output_transform: Transform,
        physical_origin: Point,
    ) -> LegacyCursorPlan {
        match self.ownership {
            LegacyCursorOwnership::Atomic => LegacyCursorPlan::Atomic,
            LegacyCursorOwnership::Active(active) => if shows(
                active,
                element,
                element_size,
                output_scale,
                output_transform,
            ) {
                if active.presentation.physical_origin == physical_origin {
                    LegacyCursorPlan::Keep(active.presentation)
                } else if self.fast_motion_permanently_rejected {
                    LegacyCursorPlan::Install
                } else {
                    LegacyCursorPlan::Move
                }
            } else {
                LegacyCursorPlan::Install
            },
            _ => LegacyCursorPlan::Install,
        }
    }

    /// What a frame has to do for its cursor element.
    pub fn plan(
        &self,
        element: ElementInfo,
        element_size: Size,
        output_scale: Scale,
        output_transform: Transform,
        physical_origin: Point,
    ) -> (r: LegacyCursorPlan)
        ensures
            r == self.plan_spec(
                element,
                element_size,
                output_scale,
                output_transform,
                physical_origin,
            ),
    {
        match self.ownership {
            LegacyCursorOwnership::Atomic => LegacyCursorPlan::Atomic,
            LegacyCursorOwnership::Active(active) => {
                let unchanged = active.presentation.element_id == element.id
                    && active.presentation.commit == element.commit && active.element_size
                    == element_size && active.output_scale.same(output_scale)
                    && active.output_transform == output_transform;
                if !unchanged {
                    return LegacyCursorPlan::Install;
                }
                if active.presentation.physical_origin == physical_origin {
                    return LegacyCursorPlan::Keep(active.presentation);
                }
                match self.move_refusal(active.presentation.token) {
                    Some(_) => LegacyCursorPlan::Install,
                    None => LegacyCursorPlan::Move,
                }
            },
            LegacyCursorOwnership::Candidate | LegacyCursorOwnership::Disabled => {
                LegacyCursorPlan::Install
            },
        }
    }

    /// The cursor that a successful installation makes active.
    pub open spec fn fresh(
        self,
        buffer: u64,
        element: ElementInfo,
        element_size: Size,
        output_scale: Scale,
        output_transform: Transform,
        physical_origin: Point,
        plane_size: Size,
    ) -> LegacyCursorActive {
        LegacyCursorActive {
            buffer,
            presentation: LegacyCursorPresentation {
                token: LegacyCursorToken { value: self.next_token },
                physical_origin,
                element_id: element.id,
                commit: element.commit,
                plane_size,
            },
            element_size,
            output_scale,
            output_transform,
        }
    }

    /// The state after an installation that would make `fresh` the active cursor.
    pub open spec fn after_install(
        self,
        result: LegacyCursorInstallResult,
        fresh: LegacyCursorActive,
    ) -> LegacyCursorState {
        match result {
            LegacyCursorInstallResult::Installed => LegacyCursorState {
                ownership: LegacyCursorOwnership::Active(fresh),
                next_token: following(self.next_token),
                legacy_succeeded: true,
                ..self
            },
            LegacyCursorInstallResult::PreserveActive => self,
            LegacyCursorInstallResult::DisabledSoftware => LegacyCursorState {
                ownership: LegacyCursorOwnership::Disabled,
                legacy_succeeded: true,
                ..self
            },
            LegacyCursorInstallResult::CandidateSoftware => LegacyCursorState {
                ownership: LegacyCursorOwnership::Candidate,
                ..self
            },
            LegacyCursorInstallResult::Atomic => LegacyCursorState {
                ownership: LegacyCursorOwnership::Atomic,
                ..self
            },
        }
    }

    pub open spec fn install_assignment(
        self,
        result: LegacyCursorInstallResult,
        fresh: LegacyCursorActive,
    ) -> LegacyCursorAssignment {
        match result {
            LegacyCursorInstallResult::Installed => LegacyCursorAssignment::Presented(
                fresh.presentation,
            ),
            LegacyCursorInstallResult::PreserveActive => match self.active_presentation_spec() {
                Some(presentation) => LegacyCursorAssignment::Presented(presentation),
                None => LegacyCursorAssignment::Software,
            },
            LegacyCursorInstallResult::Atomic => LegacyCursorAssignment::Atomic,
            _ => LegacyCursorAssignment::Software,
        }
    }

    /// Takes note of how an installation ended.
    pub fn finish_install(
        &mut self,
        result: LegacyCursorInstallResult,
        buffer: u64,
        element: ElementInfo,
        element_size: Size,
        output_scale: Scale,
        output_transform: Transform,
        physical_origin: Point,
        plane_size: Size,
    ) -> (r: LegacyCursorAssignment)
        requires
            old(self).wf(),
        ensures
            *final(self) == old(self).after_install(
                result,
                old(self).fresh(
                    buffer,
                    element,
                    element_size,
                    output_scale,
                    output_transform,
                    physical_origin,
                    plane_size,
                ),
            ),
            r == old(self).install_assignment(
                result,
                old(self).fresh(
                    buffer,
                    element,
                    element_size,
                    output_scale,
                    output_transform,
                    physical_origin,
                    plane_size,
                ),
            ),
            final(self).wf(),
    {
        match result {
            LegacyCursorInstallResult::Installed => {
                self.legacy_succeeded = true;
                let presentation = LegacyCursorPresentation {
                    token: self.token(),
                    physical_origin,
                    element_id: element.id,
                    commit: element.commit,
                    plane_size,
                };
                self.ownership = LegacyCursorOwnership::Active(
                    LegacyCursorActive {
                        buffer,
                        presentation,
                        element_size,
                        output_scale,
                        output_transform,
                    },
                );
                LegacyCursorAssignment::Presented(presentation)
            },
            LegacyCursorInstallResult::PreserveActive => match self.active_presentation() {
                Some(presentation) => LegacyCursorAssignment::Presented(presentation),
                None => LegacyCursorAssignment::Software,
            },
            LegacyCursorInstallResult::DisabledSoftware => {
                self.legacy_succeeded = true;
                self.ownership = LegacyCursorOwnership::Disabled;
                LegacyCursorAssignment::Software
            },
            LegacyCursorInstallResult::CandidateSoftware => {
                self.ownership = LegacyCursorOwnership::Candidate;
                LegacyCursorAssignment::Software
            },
            LegacyCursorInstallResult::Atomic => {
                self.ownership = LegacyCursorOwnership::Atomic;
                LegacyCursorAssignment::Atomic
            },
        }
    }
}

/// A token is good for one installation: once another cursor was installed, moves with the token
/// of the one before are refused as stale, and with the new token they are not.
pub proof fn replaced_tokens_are_stale(
    state: LegacyCursorState,
    before: LegacyCursorActive,
    fresh: LegacyCursorActive,
)
    requires
        state.wf(),
        !state.fast_motion_permanently_rejected,
        state.ownership == LegacyCursorOwnership::Active(before),
        fresh.presentation.token.value == state.next_token,
    ensures
        state.after_install(LegacyCursorInstallResult::Installed, fresh).move_refusal_spec(
            before.presentation.token,
        ) == Some(LegacyCursorMoveResult::StaleToken),
        state.after_install(LegacyCursorInstallResult::Installed, fresh).move_refusal_spec(
            fresh.presentation.token,
        ) is None,
{
}

/// After the lifecycle was invalidated no token moves anything.
pub proof fn invalidated_tokens_move_nothing(
    state: LegacyCursorState,
    policy: CursorPlanePolicy,
    token: LegacyCursorToken,
)
    ensures
        state.invalidated(policy).move_refusal_spec(token) == Some(
            LegacyCursorMoveResult::NotActive,
        ),
{
}

/// A rejection of cursor-only moves lasts until the lifecycle is invalidated: no move, disable or
/// installation ends it.
pub proof fn rejection_is_permanent(
    state: LegacyCursorState,
    physical_origin: Point,
    moved: Result<(), Option<i32>>,
    disabled: bool,
    installed: LegacyCursorInstallResult,
    fresh: LegacyCursorActive,
    token: LegacyCursorToken,
)
    requires
        state.fast_motion_permanently_rejected,
    ensures
        state.move_refusal_spec(token) == Some(LegacyCursorMoveResult::Rejected),
        state.after_move(physical_origin, moved).fast_motion_permanently_rejected,
        state.after_disable(disabled).fast_motion_permanently_rejected,
        state.after_install(installed, fresh).fast_motion_permanently_rejected,
{
}

} // verus!
