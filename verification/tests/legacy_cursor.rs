use std::cell::RefCell;

use compositor_core::element::{ElementInfo, Kind, OutputState, Scale};
use compositor_core::flags::FrameFlags;
use compositor_core::float::{F32, F64};
use compositor_core::geometry::{Point, Rectangle, Size, Transform};
use compositor_core::legacy_attempt::{LegacyAttempt, LegacyRequest};
use compositor_core::legacy_cursor::{
    classify_legacy_cursor_error, install_legacy_cursor, CursorPlanePolicy, InstallStep,
    LegacyCursorAssignment, LegacyCursorInstallResult, LegacyCursorIo, LegacyCursorIoError,
    LegacyCursorMoveResult, LegacyCursorOwnership, LegacyCursorState, LegacyCursorToken,
    RecordedIo,
};
use compositor_core::plane::SrcRect;
use compositor_core::transform::cursor_plane_location;

#[derive(Default)]
struct MockIo {
    calls: RefCell<Vec<&'static str>>,
    disable_error: Option<i32>,
    install_error: Option<i32>,
    move_error: Option<i32>,
}

impl LegacyCursorIo<()> for MockIo {
    fn disable(&self) -> Result<(), Option<i32>> {
        self.calls.borrow_mut().push("disable");
        self.disable_error.map_or(Ok(()), |code| Err(Some(code)))
    }

    fn install(&self, _buffer: &()) -> Result<(), Option<i32>> {
        self.calls.borrow_mut().push("install");
        self.install_error.map_or(Ok(()), |code| Err(Some(code)))
    }

    fn move_to(&self, _origin: Point) -> Result<(), Option<i32>> {
        self.calls.borrow_mut().push("move");
        self.move_error.map_or(Ok(()), |code| Err(Some(code)))
    }
}

/// Runs the installation step by step as well, and holds the two against each other.
fn install(io: &MockIo, replacing: bool, succeeded: bool) -> LegacyCursorInstallResult {
    let result = install_legacy_cursor(&mut RecordedIo::new(io), &(), Point::from((10, 20)), replacing, succeeded);
    let calls = io.calls.borrow().clone();
    io.calls.borrow_mut().clear();
    let mut step = InstallStep::start(replacing, succeeded);
    let stepped = loop {
        let outcome = match step {
            InstallStep::DisableReplaced | InstallStep::DisableMisplaced => io.disable(),
            InstallStep::MoveFirst | InstallStep::MoveInstalled => io.move_to(Point::from((10, 20))),
            InstallStep::Install => io.install(&()),
            InstallStep::Done(result) => break result,
        };
        step = step.next(succeeded, outcome);
    };
    assert_eq!(stepped, result);
    assert_eq!(*io.calls.borrow(), calls);
    result
}

#[test]
fn first_install_sets_then_places() {
    let io = MockIo::default();
    assert_eq!(install(&io, false, false), LegacyCursorInstallResult::Installed);
    assert_eq!(&*io.calls.borrow(), &["install", "move"]);
}

#[test]
fn replacement_disables_moves_then_installs() {
    let io = MockIo::default();
    assert_eq!(install(&io, true, true), LegacyCursorInstallResult::Installed);
    assert_eq!(&*io.calls.borrow(), &["disable", "move", "install"]);
}

#[test]
fn failed_disable_preserves_the_active_cursor() {
    let io = MockIo {
        disable_error: Some(16),
        ..Default::default()
    };
    assert_eq!(install(&io, true, true), LegacyCursorInstallResult::PreserveActive);
    assert_eq!(&*io.calls.borrow(), &["disable"]);
}

#[test]
fn only_a_permanent_first_install_releases_the_plane_to_atomic() {
    let permanent = MockIo {
        install_error: Some(22),
        ..Default::default()
    };
    assert_eq!(install(&permanent, false, false), LegacyCursorInstallResult::Atomic);

    let transient = MockIo {
        install_error: Some(16),
        ..Default::default()
    };
    assert_eq!(
        install(&transient, false, false),
        LegacyCursorInstallResult::CandidateSoftware
    );

    let after_success = MockIo {
        install_error: Some(22),
        ..Default::default()
    };
    assert_eq!(
        install(&after_success, false, true),
        LegacyCursorInstallResult::DisabledSoftware
    );
}

#[test]
fn failed_initial_placement_cleans_up_the_installed_cursor() {
    let io = MockIo {
        move_error: Some(16),
        ..Default::default()
    };
    assert_eq!(
        install(&io, false, false),
        LegacyCursorInstallResult::DisabledSoftware
    );
    assert_eq!(&*io.calls.borrow(), &["install", "move", "disable"]);
}

#[test]
fn placement_and_default_flags_share_the_legacy_contract() {
    let output = Rectangle::from_size(Size::from((100, 80)));
    assert_eq!(
        cursor_plane_location(
            Point::from((12, 7)),
            Size::from((64, 64)),
            output,
            Transform::Normal,
        ),
        Point::from((12, 7)),
    );
    assert!(FrameFlags::new(FrameFlags::DEFAULT).contains(FrameFlags::ALLOW_LEGACY_CURSOR));
    assert!(!FrameFlags::empty().contains(FrameFlags::ALLOW_LEGACY_CURSOR));
}

#[test]
fn errors_are_classified_by_their_number() {
    for code in [22, 25, 38, 95] {
        assert_eq!(classify_legacy_cursor_error(Some(code)), LegacyCursorIoError::Permanent);
    }
    for code in [1, 13] {
        assert_eq!(classify_legacy_cursor_error(Some(code)), LegacyCursorIoError::Inactive);
    }
    assert_eq!(classify_legacy_cursor_error(Some(16)), LegacyCursorIoError::Busy);
    assert_eq!(classify_legacy_cursor_error(None), LegacyCursorIoError::Busy);
}

fn output() -> OutputState {
    OutputState {
        size: Size::from((100, 80)),
        scale: Scale { x: F64::from_i32(1), y: F64::from_i32(1) },
        transform: Transform::Normal,
        geometry: Rectangle::from_size(Size::from((100, 80))),
    }
}

fn cursor_element(commit: u64, x: i32) -> ElementInfo {
    ElementInfo {
        id: 7,
        commit,
        kind: Kind::Cursor,
        geometry: Rectangle::new(Point::from((x, 5)), Size::from((24, 24))),
        location: Point::from((x, 5)),
        src: SrcRect::whole(Size::from((24, 24))),
        transform: Transform::Normal,
        alpha: F32::one(),
        storage: None,
        exportable: false,
        is_framebuffer_effect: false,
        single_pixel: None,
    }
}

fn present(state: &mut LegacyCursorState, element: ElementInfo) -> LegacyCursorAssignment {
    let mut attempt =
        LegacyAttempt::begin(element, output(), Size::from((64, 64)), Some(*state));
    loop {
        match attempt.request() {
            LegacyRequest::MoveCursor(_) | LegacyRequest::DisableCursor | LegacyRequest::InstallCursor(_) => {
                if matches!(attempt.phase, compositor_core::legacy_attempt::LegacyPhase::Move) {
                    attempt.moved(state, Ok(()));
                } else {
                    attempt.installed(state, Ok(()));
                }
            }
            LegacyRequest::DrawCursor { plane_size, .. } => {
                assert_eq!(plane_size, Size::from((64, 64)));
                attempt.drawn(state, Some(99));
            }
            LegacyRequest::Finished { assignment, released } => {
                assert!(!released);
                return assignment;
            }
        }
    }
}

#[test]
fn a_token_moves_its_own_installation_only() {
    let mut state = LegacyCursorState::new(CursorPlanePolicy::Legacy);
    let LegacyCursorAssignment::Presented(first) = present(&mut state, cursor_element(1, 10)) else {
        panic!("the cursor is presented");
    };
    assert_eq!(first.token, LegacyCursorToken { value: 1 });
    assert_eq!(first.physical_origin, Point::from((10, 5)));
    assert_eq!(state.move_refusal(first.token), None);
    assert_eq!(
        state.finish_move(Point::from((20, 30)), Ok(())),
        LegacyCursorMoveResult::Moved(compositor_core::legacy_cursor::LegacyCursorPresentation {
            physical_origin: Point::from((20, 30)),
            ..first
        })
    );

    let LegacyCursorAssignment::Presented(second) = present(&mut state, cursor_element(2, 10)) else {
        panic!("the new content is presented");
    };
    assert_eq!(second.token, LegacyCursorToken { value: 2 });
    assert_eq!(state.move_refusal(first.token), Some(LegacyCursorMoveResult::StaleToken));
    assert_eq!(state.move_refusal(second.token), None);

    state.invalidate(CursorPlanePolicy::Legacy);
    assert_eq!(state.move_refusal(second.token), Some(LegacyCursorMoveResult::NotActive));
    assert_eq!(state.next_token, 4);
}

#[test]
fn an_unchanged_cursor_is_kept_or_moved_and_never_drawn_again() {
    let mut state = LegacyCursorState::new(CursorPlanePolicy::Legacy);
    present(&mut state, cursor_element(1, 10));
    let kept = LegacyAttempt::begin(cursor_element(1, 10), output(), Size::from((64, 64)), Some(state));
    assert!(matches!(kept.request(), LegacyRequest::Finished { assignment: LegacyCursorAssignment::Presented(_), .. }));
    let moved = LegacyAttempt::begin(cursor_element(1, 11), output(), Size::from((64, 64)), Some(state));
    assert_eq!(moved.request(), LegacyRequest::MoveCursor(Point::from((11, 5))));
    let drawn = LegacyAttempt::begin(cursor_element(2, 10), output(), Size::from((64, 64)), Some(state));
    assert!(matches!(drawn.request(), LegacyRequest::DrawCursor { .. }));
    let too_big = LegacyAttempt::begin(cursor_element(2, 10), output(), Size::from((16, 64)), Some(state));
    assert_eq!(
        too_big.request(),
        LegacyRequest::Finished { assignment: LegacyCursorAssignment::Software, released: false }
    );
}

#[test]
fn a_permanent_rejection_of_moves_lasts_until_the_lifecycle_ends() {
    let mut state = LegacyCursorState::new(CursorPlanePolicy::Legacy);
    present(&mut state, cursor_element(1, 10));
    assert_eq!(
        state.finish_move(Point::from((0, 0)), Err(Some(22))),
        LegacyCursorMoveResult::Rejected
    );
    assert_eq!(
        state.move_refusal(LegacyCursorToken { value: 1 }),
        Some(LegacyCursorMoveResult::Rejected)
    );
    let moved = LegacyAttempt::begin(cursor_element(1, 11), output(), Size::from((64, 64)), Some(state));
    assert!(matches!(moved.request(), LegacyRequest::DrawCursor { .. }));
    state.invalidate(CursorPlanePolicy::Atomic);
    assert!(!state.fast_motion_permanently_rejected);
    assert_eq!(state.ownership, LegacyCursorOwnership::Atomic);
}

#[test]
fn a_busy_driver_leaves_the_cursor_where_it_is() {
    let mut state = LegacyCursorState::new(CursorPlanePolicy::Legacy);
    present(&mut state, cursor_element(1, 10));
    let before = state;
    assert_eq!(
        state.finish_move(Point::from((0, 0)), Err(Some(16))),
        LegacyCursorMoveResult::Busy
    );
    assert_eq!(state, before, "it is still installed");
    assert_eq!(state.move_refusal(LegacyCursorToken { value: 1 }), None);
    assert!(matches!(
        state.finish_move(Point::from((20, 30)), Ok(())),
        LegacyCursorMoveResult::Moved(_)
    ));
}

#[test]
fn a_cursor_that_can_not_be_taken_off_is_handed_back() {
    let mut state = LegacyCursorState::new(CursorPlanePolicy::Legacy);
    assert_eq!(state.finish_disable(false), None);
    present(&mut state, cursor_element(1, 10));
    assert_eq!(state.finish_disable(false).map(|p| p.element_id), Some(7));
    assert_eq!(state.finish_disable(true), None);
    assert_eq!(state.ownership, LegacyCursorOwnership::Disabled);
}

#[test]
fn tokens_wrap_around_zero() {
    let mut state = LegacyCursorState::new(CursorPlanePolicy::Legacy);
    state.next_token = u64::MAX;
    assert_eq!(state.token(), LegacyCursorToken { value: u64::MAX });
    assert_eq!(state.token(), LegacyCursorToken { value: 1 });
}

#[test]
fn a_rejected_first_install_releases_the_cursor_planes() {
    let mut state = LegacyCursorState::new(CursorPlanePolicy::Legacy);
    let mut attempt =
        LegacyAttempt::begin(cursor_element(1, 10), output(), Size::from((64, 64)), Some(state));
    attempt.drawn(&state, Some(5));
    attempt.installed(&mut state, Err(Some(95)));
    assert_eq!(
        attempt.request(),
        LegacyRequest::Finished { assignment: LegacyCursorAssignment::Atomic, released: true }
    );
    assert_eq!(state.ownership, LegacyCursorOwnership::Atomic);
}

#[test]
fn the_plane_origin_follows_the_output_transform() {
    let output = Rectangle::from_size(Size::from((100, 80)));
    let place = |transform| {
        cursor_plane_location(Point::from((12, 7)), Size::from((64, 64)), output, transform)
    };
    assert_eq!(place(Transform::_90), Point::from((9, 12)));
    assert_eq!(place(Transform::_180), Point::from((24, 9)));
    assert_eq!(place(Transform::_270), Point::from((7, 24)));
    assert_eq!(place(Transform::Flipped), Point::from((24, 7)));
    assert_eq!(place(Transform::Flipped90), Point::from((7, 12)));
    assert_eq!(place(Transform::Flipped180), Point::from((12, 9)));
    assert_eq!(place(Transform::Flipped270), Point::from((9, 24)));
}
