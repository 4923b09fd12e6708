use compositor_core::buffer::{
    CachedDrmFramebuffer, Format, FramebufferInfo, ScanoutBuffer, Slot, SyncPoint,
    UnderlyingStorage, WaylandBuffer,
};
use compositor_core::compositor::{DrmCompositor, OutputMode, OutputModeSource, PresentationMode};
use compositor_core::core_state::{FormatTable, FormatTraits};
use compositor_core::device::{Device, RenderFailure, RenderOutput};
use compositor_core::element::{
    Color32F, Element, ElementInfo, Kind, RenderElementPresentationState, RenderElementState,
    RenderingReason, Scale,
};
use compositor_core::error::{
    DrmError, FrameError, OutputDamageTrackerError, RenderFrameError, SwapBuffersError,
};
use compositor_core::fits::is_composable;
use compositor_core::flags::FrameFlags;
use compositor_core::float::{F32, F64};
use compositor_core::frame_finish::{DamageReport, PlaneElement};
use compositor_core::frame_state::SurfacePlaneState;
use compositor_core::geometry::{Point, Rectangle, Size, Transform};
use compositor_core::legacy_cursor::{CursorPlanePolicy, LegacyCursorMoveResult};
use compositor_core::plane::{are_planes_usable, PlaneInfo, PlaneType, Planes, SrcRect};
use compositor_core::prepared::{PreparedFrame, PreparedFrameKind, PrimaryPlaneElement, RenderFrameResult};
use compositor_core::record::Recorded;
use compositor_core::visibility::VisibleElement;

const ARGB: u32 = 875713089;
const XRGB: u32 = 875713112;
const PRIMARY: u32 = 1;
const CURSOR: u32 = 2;
const OVERLAY: u32 = 3;
const UNDERLAY: u32 = 4;

type Failure = RenderFrameError<(), (), (), ()>;
type Error = FrameError<(), (), ()>;

fn format(code: u32) -> Format {
    Format { code, modifier: 0 }
}

fn plane(handle: u32, type_: PlaneType, zpos: i32) -> PlaneInfo {
    PlaneInfo {
        handle,
        type_,
        zpos: Some(zpos),
        formats: vec![format(ARGB)],
        size_hints: None,
    }
}

fn mode() -> OutputMode {
    OutputMode {
        size: Size::from((100, 80)),
        scale: Scale { x: F64::from_i32(1), y: F64::from_i32(1) },
        transform: Transform::Normal,
    }
}

fn compositor_with(policy: CursorPlanePolicy, overlay: Vec<PlaneInfo>) -> DrmCompositor<&'static str> {
    DrmCompositor::from_parts(
        plane(PRIMARY, PlaneType::Primary, 1),
        Planes {
            primary: vec![plane(PRIMARY, PlaneType::Primary, 1)],
            cursor: vec![plane(CURSOR, PlaneType::Cursor, 9)],
            overlay,
        },
        FormatTable {
            formats: vec![
                FormatTraits { code: ARGB, opaque: Some(XRGB), has_alpha: true },
                FormatTraits { code: XRGB, opaque: None, has_alpha: false },
            ],
        },
        Size::from((64, 64)),
        policy,
        true,
        Some(500),
        true,
        false,
        77,
        OutputModeSource::Static(mode()),
    )
}

fn compositor() -> DrmCompositor<&'static str> {
    compositor_with(CursorPlanePolicy::Atomic, vec![plane(OVERLAY, PlaneType::Overlay, 5)])
}

fn rect(x: i32, y: i32, w: i32, h: i32) -> Rectangle {
    Rectangle::new(Point::from((x, y)), Size::from((w, h)))
}

fn element(id: u64, kind: Kind, geometry: Rectangle, opaque: bool) -> Element {
    Element {
        info: ElementInfo {
            id,
            commit: 1,
            kind,
            geometry,
            location: geometry.loc,
            src: SrcRect::whole(geometry.size),
            transform: Transform::Normal,
            alpha: F32::one(),
            storage: Some(UnderlyingStorage::Wayland(WaylandBuffer {
                id: 1000 + id,
                y_inverted: None,
                has_acquire_point: false,
            })),
            exportable: true,
            is_framebuffer_effect: false,
            single_pixel: None,
        },
        opaque_regions: if opaque { vec![Rectangle::from_size(geometry.size)] } else { vec![] },
    }
}

fn black() -> Color32F {
    let zero = F32 { bits: 0 };
    Color32F { r: zero, g: zero, b: zero, a: F32::one() }
}

fn white() -> Color32F {
    Color32F { r: F32::one(), g: F32::one(), b: F32::one(), a: F32::one() }
}

/// A device that refuses what it is told to refuse, and notes what it is asked.
struct Board {
    active: bool,
    slot: Option<u64>,
    refuse_tests: usize,
    refuse_export: bool,
    refuse_flip: Option<DrmError>,
    no_claims: Vec<u32>,
    dead: Vec<u64>,
    damage: bool,
    render_damage: bool,
    render_failure: Option<RenderFailure<()>>,
    tests: usize,
    modeset_tests: usize,
    driver: &'static str,
    version: Option<&'static str>,
    swapchains: Vec<(u32, Vec<u64>)>,
    drawn: usize,
    exports: usize,
    slot_exports: usize,
    flips: Vec<Vec<u32>>,
    commits: usize,
    asked_async: Vec<bool>,
    kept: Vec<(u64, CachedDrmFramebuffer)>,
    submitted: Vec<u64>,
    resets: usize,
    damage_resets: usize,
    sizes: Vec<Size>,
    legacy: Option<u64>,
    moved_to: Vec<Point>,
    next_id: u64,
}

impl Board {
    fn willing() -> Board {
        Board {
            active: true,
            slot: Some(20),
            refuse_tests: 0,
            refuse_export: false,
            refuse_flip: None,
            no_claims: vec![],
            dead: vec![],
            damage: true,
            render_damage: true,
            render_failure: None,
            tests: 0,
            modeset_tests: 0,
            driver: "board",
            version: None,
            swapchains: vec![],
            drawn: 0,
            exports: 0,
            slot_exports: 1000,
            flips: vec![],
            commits: 0,
            asked_async: vec![],
            kept: vec![],
            submitted: vec![],
            resets: 0,
            damage_resets: 0,
            sizes: vec![],
            legacy: None,
            moved_to: vec![],
            next_id: 9000,
        }
    }
}

impl Device<(), (), (), ()> for Board {
    fn signaled_fence(&mut self) -> Option<u64> {
        Some(500)
    }

    fn driver(&mut self) -> Result<(String, String), DrmError> {
        Ok((String::from(self.driver), String::from("a board for tests")))
    }

    fn syncobj_capability(&mut self) -> Result<u64, DrmError> {
        Ok(1)
    }

    fn takes_fences(&mut self, _plane: u32) -> Result<bool, DrmError> {
        Ok(true)
    }

    fn driver_version(&mut self) -> Option<String> {
        self.version.map(String::from)
    }

    fn open_swapchain(&mut self, size: Size, code: u32, modifiers: &Vec<u64>) {
        assert_eq!(size, Size::from((100, 80)));
        self.swapchains.push((code, modifiers.clone()));
    }

    fn restore_swapchain(&mut self) {
        self.swapchains.pop();
    }

    fn is_active(&self) -> bool {
        self.active
    }

    fn commit_pending(&self) -> bool {
        false
    }

    fn claim_plane(&mut self, plane: u32) -> Option<u64> {
        if self.no_claims.contains(&plane) {
            None
        } else {
            Some(plane as u64)
        }
    }

    fn test_state(&mut self, _planes: &Vec<SurfacePlaneState>, allow_modeset: bool) -> Result<(), DrmError> {
        self.modeset_tests += allow_modeset as usize;
        self.tests += 1;
        if self.refuse_tests > 0 {
            self.refuse_tests -= 1;
            Err(DrmError::Other(1))
        } else {
            Ok(())
        }
    }

    fn commit(&mut self, _planes: &Vec<SurfacePlaneState>, _event: bool) -> Result<(), DrmError> {
        self.commits += 1;
        match self.refuse_flip.take() {
            Some(error) => Err(error),
            None => Ok(()),
        }
    }

    fn page_flip(
        &mut self,
        planes: &Vec<SurfacePlaneState>,
        _event: bool,
        async_flip: bool,
    ) -> Result<PresentationMode, DrmError> {
        self.flips.push(planes.iter().map(|p| p.handle).collect());
        self.asked_async.push(async_flip);
        match self.refuse_flip.take() {
            Some(error) => Err(error),
            None if async_flip => Ok(PresentationMode::Async),
            None => Ok(PresentationMode::Vsync),
        }
    }

    fn export_fence(&mut self, _point: SyncPoint) -> Option<u64> {
        None
    }

    fn disable_cursor(&mut self) -> Result<(), Option<i32>> {
        self.legacy = None;
        Ok(())
    }

    fn install_cursor(&mut self, buffer: u64) -> Result<(), Option<i32>> {
        self.legacy = Some(buffer);
        Ok(())
    }

    fn move_cursor(&mut self, origin: Point) -> Result<(), Option<i32>> {
        self.moved_to.push(origin);
        Ok(())
    }

    fn acquire(&mut self) -> Result<Option<Slot>, ()> {
        Ok(self.slot.map(|id| Slot { id, format: format(ARGB) }))
    }

    fn export_slot(&mut self, _slot: Slot) -> Result<Size, ()> {
        if self.slot_exports == 0 {
            return Err(());
        }
        self.slot_exports -= 1;
        Ok(Size::from((100, 80)))
    }

    fn slot_framebuffer(&mut self, slot: Slot) -> Option<CachedDrmFramebuffer> {
        self.kept.iter().find(|(id, _)| *id == slot.id).map(|(_, fb)| *fb)
    }

    fn add_slot_framebuffer(&mut self, slot: Slot, use_opaque: bool) -> Result<Option<FramebufferInfo>, ()> {
        let code = if use_opaque { XRGB } else { ARGB };
        Ok(Some(FramebufferInfo { handle: slot.id as u32, format: format(code) }))
    }

    fn keep_slot_framebuffer(&mut self, slot: Slot, fb: CachedDrmFramebuffer) {
        self.kept.push((slot.id, fb));
    }

    fn slot_submitted(&mut self, slot: Slot) {
        self.submitted.push(slot.id);
    }

    fn reset_buffers(&mut self) {
        self.resets += 1;
    }

    fn resize_swapchain(&mut self, size: Size) {
        self.sizes.push(size);
    }

    fn use_mode(&mut self, mode: u64) -> Result<(), DrmError> {
        if mode == 0 {
            Err(DrmError::Other(2))
        } else {
            Ok(())
        }
    }

    fn reset_state(&mut self) -> Result<(), DrmError> {
        Ok(())
    }

    fn clear(&mut self) -> Result<(), DrmError> {
        Ok(())
    }

    fn reset_damage(&mut self, _output_mode_source: OutputModeSource) {
        self.damage_resets += 1;
    }

    fn add_element_framebuffer(
        &mut self,
        element: &ElementInfo,
        _allow_opaque_fallback: bool,
    ) -> Result<Option<FramebufferInfo>, ()> {
        self.exports += 1;
        if self.refuse_export {
            Err(())
        } else {
            Ok(Some(FramebufferInfo { handle: 100 + element.id as u32, format: format(ARGB) }))
        }
    }

    fn element_damage(
        &mut self,
        _element: &ElementInfo,
        _since: Option<u64>,
        _src: SrcRect,
        _geometry: Rectangle,
        _transform: Transform,
    ) -> (bool, Option<u64>) {
        (self.damage, Some(8))
    }

    fn alive_buffers(&mut self) -> Vec<u64> {
        (1000..1010).filter(|id| !self.dead.contains(id)).collect()
    }

    fn has_cursor_renderer(&mut self) -> bool {
        true
    }

    fn supports_cursor_memory(&mut self, _element: &ElementInfo) -> bool {
        true
    }

    fn create_cursor_buffer(&mut self, size: Size, code: u32, modifier: u64) -> Option<u64> {
        assert_eq!((size, code, modifier), (Size::from((64, 64)), ARGB, 0));
        Some(40)
    }

    fn add_cursor_framebuffer(&mut self, _buffer: u64) -> Option<FramebufferInfo> {
        Some(FramebufferInfo { handle: 200, format: format(ARGB) })
    }

    fn copy_cursor(&mut self, _element: &ElementInfo, _buffer: u64) -> bool {
        self.drawn += 1;
        true
    }

    fn import_cursor(&mut self, _element: &ElementInfo, _from_memory: bool) -> bool {
        true
    }

    fn paint_cursor(&mut self, _element: &ElementInfo, _buffer: u64, _size: Size, _transform: Transform) -> bool {
        self.drawn += 1;
        true
    }

    fn fresh_id(&mut self) -> u64 {
        self.next_id += 1;
        self.next_id - 1
    }

    fn render(
        &mut self,
        _slot: Slot,
        _plane_elements: &Vec<PlaneElement>,
        elements: &Vec<usize>,
        visible: &Vec<VisibleElement>,
        _clear_color: Color32F,
        _debug_flags: u32,
    ) -> Result<RenderOutput, RenderFailure<()>> {
        if let Some(failure) = self.render_failure.take() {
            return Err(failure);
        }
        let states = elements
            .iter()
            .map(|i| (visible[*i].info.id, RenderElementState::rendered(visible[*i].visible_area)))
            .collect();
        Ok(RenderOutput { has_damage: self.render_damage, sync: SyncPoint::Pending(6), states })
    }

    fn report_damage(
        &mut self,
        _report: DamageReport,
        _src: SrcRect,
        _dst: Rectangle,
        _output: Rectangle,
        _transform: Transform,
    ) -> Option<u64> {
        Some(3)
    }

    fn cleanup_textures(&mut self) {}
}

/// A board whose answers are on record.
type Wired = Recorded<(), (), (), (), Board>;

fn render(
    c: &mut DrmCompositor<&'static str>,
    elements: &Vec<Element>,
    clear_color: Color32F,
    flags: u32,
    slot_id: u64,
    device: &mut Wired,
) -> RenderFrameResult {
    assert!(is_composable(elements, &mode().output(), &c.core));
    set(device, |board| board.slot = Some(slot_id));
    match c.render_frame(device, elements, clear_color, FrameFlags::new(flags), Some(mode())) {
        Ok(result) => result,
        Err(error) => panic!("{error:?}"),
    }
}

/// Changes how the board behaves.
fn set(device: &mut Wired, change: impl FnOnce(&mut Board)) {
    let mut board = std::mem::replace(device, Wired::new(Board::willing())).into_device();
    change(&mut board);
    *device = Wired::new(board);
}

fn submit(c: &mut DrmCompositor<&'static str>, device: &mut Wired, data: &'static str) {
    assert_eq!(c.queue_frame(device, data), Ok(()));
}

#[test]
fn elements_are_rendered_without_planes() {
    let mut c = compositor();
    let mut device = Wired::new(Board::willing());
    let elements = vec![element(1, Kind::Unspecified, rect(0, 0, 50, 50), false)];
    let result = render(&mut c, &elements, white(), FrameFlags::DEFAULT, 20, &mut device);
    assert!(!result.is_empty);
    assert!(matches!(
        result.primary_element,
        PrimaryPlaneElement::Swapchain { sync: SyncPoint::Pending(6), .. }
    ));
    assert_eq!(result.states.get(1), Some(RenderElementState::rendered(2500)));
    assert_eq!(result.primary_plane_element_id, 77);
    assert!(result.supports_fencing);
    submit(&mut c, &mut device, "first");
    assert_eq!(device.device().submitted, vec![20]);
    assert_eq!(device.device().flips.len(), 1);
    assert!(!c.reset_pending, "a full update ends the reset");
    assert_eq!(c.frame_submitted(&mut device), Ok(Some("first")));
    assert_eq!(c.frame_submitted(&mut device), Ok(None));
}

#[test]
fn a_scanout_candidate_goes_to_an_overlay_plane_after_one_test() {
    let mut c = compositor();
    let mut device = Wired::new(Board::willing());
    let elements = vec![
        element(1, Kind::ScanoutCandidate, rect(0, 0, 50, 50), false),
        element(2, Kind::Unspecified, rect(60, 0, 20, 20), false),
    ];
    let result = render(&mut c, &elements, white(), FrameFlags::DEFAULT, 20, &mut device);
    assert_eq!(result.overlay_elements, vec![0]);
    assert_eq!(result.states.get(1), Some(RenderElementState::zero_copy(2500)));
    assert_eq!(device.device().tests, 2, "the plane, and then the first frame");
    submit(&mut c, &mut device, "a");

    let again = render(&mut c, &elements, white(), FrameFlags::DEFAULT, 21, &mut device);
    assert_eq!(again.overlay_elements, vec![0]);
    assert_eq!(device.device().tests, 2, "a plane that shows the same needs no test");
    assert_eq!(c.overlay_plane_element_ids.plane_ids, vec![(OVERLAY, 9000, 1)]);
}

#[test]
fn what_is_behind_something_rendered_stays_off_overlay_planes() {
    let mut c = compositor();
    let mut device = Wired::new(Board::willing());
    let elements = vec![
        element(1, Kind::Unspecified, rect(10, 10, 20, 20), false),
        element(2, Kind::ScanoutCandidate, rect(0, 0, 50, 50), false),
        element(3, Kind::ScanoutCandidate, rect(60, 0, 10, 10), false),
    ];
    let result = render(&mut c, &elements, white(), FrameFlags::DEFAULT, 20, &mut device);
    assert_eq!(result.overlay_elements, vec![2], "only the one that is clear of it");
}

#[test]
fn what_is_behind_an_effect_is_rendered() {
    let mut c = compositor();
    let mut device = Wired::new(Board::willing());
    let mut effect = element(1, Kind::ScanoutCandidate, rect(10, 10, 20, 20), false);
    effect.info.is_framebuffer_effect = true;
    let elements = vec![effect, element(2, Kind::ScanoutCandidate, rect(0, 0, 50, 50), false)];
    let result = render(&mut c, &elements, white(), FrameFlags::DEFAULT, 20, &mut device);
    assert!(result.overlay_elements.is_empty());
    assert_eq!(device.device().tests, 1, "only the first frame as a whole");
}

#[test]
fn a_refused_element_is_rendered_and_not_tried_again() {
    let mut c = compositor();
    let mut device = Wired::new(Board { refuse_tests: 1, ..Board::willing() });
    let elements = vec![
        element(1, Kind::ScanoutCandidate, rect(0, 0, 50, 50), false),
        element(2, Kind::Unspecified, rect(60, 0, 20, 20), false),
    ];
    let result = render(&mut c, &elements, white(), FrameFlags::DEFAULT, 20, &mut device);
    assert!(result.overlay_elements.is_empty());
    assert!(matches!(
        result.states.get(1),
        Some(RenderElementState {
            presentation_state: RenderElementPresentationState::Rendering {
                reason: Some(RenderingReason::ScanoutFailed)
            },
            visible_area: 2500,
            ..
        })
    ));
    submit(&mut c, &mut device, "a");
    let tests = device.device().tests;
    render(&mut c, &elements, white(), FrameFlags::DEFAULT, 21, &mut device);
    assert_eq!(device.device().tests, tests, "the failure is remembered while nothing changes");
}

#[test]
fn a_failed_export_gives_a_reason_and_is_cached() {
    let mut c = compositor();
    let mut device = Wired::new(Board { refuse_export: true, ..Board::willing() });
    let elements = vec![
        element(1, Kind::ScanoutCandidate, rect(0, 0, 50, 50), false),
        element(2, Kind::Unspecified, rect(60, 0, 20, 20), false),
    ];
    let result = render(&mut c, &elements, white(), FrameFlags::DEFAULT, 20, &mut device);
    assert!(matches!(
        result.states.get(1).map(|s| s.presentation_state),
        Some(RenderElementPresentationState::Rendering { reason: Some(RenderingReason::ScanoutFailed) })
    ));
    set(&mut device, |board| board.refuse_export = false);
    let again = render(&mut c, &elements, white(), FrameFlags::DEFAULT, 21, &mut device);
    assert!(again.overlay_elements.is_empty(), "the outcome of the export is cached");
}

#[test]
fn an_unsupported_format_gives_a_reason() {
    let mut c = compositor();
    c.core.planes.overlay[0].formats = vec![format(XRGB)];
    let mut device = Wired::new(Board::willing());
    let elements = vec![
        element(1, Kind::ScanoutCandidate, rect(0, 0, 50, 50), false),
        element(2, Kind::Unspecified, rect(60, 0, 20, 20), false),
    ];
    let result = render(&mut c, &elements, white(), FrameFlags::DEFAULT, 20, &mut device);
    assert!(matches!(
        result.states.get(1).map(|s| s.presentation_state),
        Some(RenderElementPresentationState::Rendering { reason: Some(RenderingReason::FormatUnsupported) })
    ));
}

#[test]
fn underlays_take_opaque_elements_only() {
    for (opaque, expected) in [(true, vec![0]), (false, vec![])] {
        let mut c = compositor_with(
            CursorPlanePolicy::Atomic,
            vec![plane(UNDERLAY, PlaneType::Overlay, 0)],
        );
        let mut device = Wired::new(Board::willing());
        let elements = vec![
            element(1, Kind::ScanoutCandidate, rect(0, 0, 50, 50), opaque),
            element(2, Kind::Unspecified, rect(60, 0, 20, 20), false),
        ];
        let result = render(&mut c, &elements, white(), FrameFlags::DEFAULT, 20, &mut device);
        assert_eq!(result.overlay_elements, expected);
    }
}

#[test]
fn the_last_element_may_have_the_primary_plane() {
    let mut c = compositor();
    let mut device = Wired::new(Board::willing());
    let elements = vec![element(1, Kind::Unspecified, rect(0, 0, 100, 80), true)];
    let result = render(&mut c, &elements, white(), FrameFlags::DEFAULT, 20, &mut device);
    assert_eq!(result.primary_element, PrimaryPlaneElement::Element(0));
    submit(&mut c, &mut device, "a");
    assert!(device.device().submitted.is_empty(), "no swapchain buffer is shown");

    let small = vec![element(1, Kind::Unspecified, rect(0, 0, 50, 50), true)];
    let beside_white = render(&mut c, &small, white(), FrameFlags::DEFAULT, 21, &mut device);
    assert!(matches!(beside_white.primary_element, PrimaryPlaneElement::Swapchain { .. }));
    let beside_black = render(&mut c, &small, black(), FrameFlags::DEFAULT, 22, &mut device);
    assert_eq!(beside_black.primary_element, PrimaryPlaneElement::Element(0));
}

#[test]
fn a_cursor_is_drawn_once_and_then_moved() {
    let mut c = compositor();
    let mut device = Wired::new(Board::willing());
    let at = |x| vec![
        element(1, Kind::Cursor, rect(x, 5, 24, 24), false),
        element(2, Kind::Unspecified, rect(60, 40, 20, 20), false),
    ];
    let result = render(&mut c, &at(3), white(), FrameFlags::DEFAULT, 20, &mut device);
    assert_eq!(result.cursor_element, Some(0));
    assert_eq!((device.device().drawn, device.device().tests), (1, 2), "the cursor, and then the first frame");
    submit(&mut c, &mut device, "a");
    assert!(c.frame_submitted(&mut device).is_ok());

    set(&mut device, |board| board.render_damage = false);
    let moved = render(&mut c, &at(4), white(), FrameFlags::DEFAULT, 21, &mut device);
    assert_eq!(moved.cursor_element, Some(0));
    assert_eq!((device.device().drawn, device.device().tests), (1, 2), "moving needs neither drawing nor a test");
    assert!(!moved.is_empty);

    let skipped = render(
        &mut c,
        &at(5),
        white(),
        FrameFlags::DEFAULT + FrameFlags::SKIP_CURSOR_ONLY_UPDATES,
        22,
        &mut device,
    );
    assert!(skipped.is_empty, "an update that only moves the cursor is dropped on demand");
    assert_eq!(c.queue_frame(&mut device, "b"), Err(FrameError::EmptyFrame));

    let kept = render(&mut c, &at(3), white(), FrameFlags::DEFAULT, 23, &mut device);
    assert!(kept.is_empty, "nothing changed at all");
}

#[test]
fn a_reserved_cursor_goes_through_the_legacy_ioctls() {
    let mut c = compositor_with(CursorPlanePolicy::Legacy, vec![]);
    let mut device = Wired::new(Board::willing());
    let elements = vec![
        element(1, Kind::Cursor, rect(3, 5, 24, 24), false),
        element(2, Kind::Unspecified, rect(60, 40, 20, 20), false),
    ];
    let result = render(&mut c, &elements, white(), FrameFlags::DEFAULT, 20, &mut device);
    let presentation = result.legacy_cursor.expect("the cursor is presented");
    assert_eq!(presentation.physical_origin, Point::from((3, 5)));
    assert_eq!(result.cursor_element, None);
    assert_eq!(result.states.get(1), Some(RenderElementState::zero_copy(576)));

    let without = render(
        &mut c,
        &elements,
        white(),
        FrameFlags::ALLOW_SCANOUT,
        21,
        &mut device,
    );
    assert_eq!(without.legacy_cursor, None, "it is taken off where it is not allowed");
    assert_eq!(without.cursor_element, None, "and the plane stays reserved");
}

#[test]
fn a_legacy_cursor_below_an_effect_is_rendered() {
    let mut c = compositor_with(CursorPlanePolicy::Legacy, vec![]);
    let mut device = Wired::new(Board::willing());
    let cursor = element(1, Kind::Cursor, rect(3, 5, 24, 24), false);
    let shown = render(&mut c, &vec![cursor.clone()], white(), FrameFlags::DEFAULT, 20, &mut device);
    assert!(shown.legacy_cursor.is_some());
    let mut effect = element(2, Kind::Unspecified, rect(0, 0, 50, 50), false);
    effect.info.is_framebuffer_effect = true;
    let elements = vec![effect, cursor];
    let result = render(&mut c, &elements, white(), FrameFlags::DEFAULT, 21, &mut device);
    assert_eq!(result.legacy_cursor, None, "the effect would not find it");
    assert_eq!(result.cursor_element, None);
    assert_eq!(device.device().legacy, None, "it was taken off");
    assert!(matches!(result.primary_element, PrimaryPlaneElement::Swapchain { .. }));
    assert_eq!(result.states.get(1), Some(RenderElementState::rendered(576)));
}

#[test]
fn updates_of_nothing_but_the_cursor_are_dropped_on_demand() {
    let mut c = compositor();
    let mut device = Wired::new(Board::willing());
    let mut elements = vec![
        element(1, Kind::Cursor, rect(3, 5, 24, 24), false),
        element(2, Kind::Unspecified, rect(60, 40, 20, 20), false),
    ];
    let first = render(&mut c, &elements, white(), FrameFlags::DEFAULT, 20, &mut device);
    assert_eq!(first.cursor_element, Some(0));
    submit(&mut c, &mut device, "a");
    assert!(c.frame_submitted(&mut device).is_ok());
    set(&mut device, |board| board.damage = false);
    set(&mut device, |board| board.render_damage = false);
    elements[0].info.commit = 2;
    let flags = FrameFlags::DEFAULT + FrameFlags::SKIP_CURSOR_ONLY_UPDATES;
    let drawn = device.device().drawn;
    let skipped = render(&mut c, &elements, white(), flags, 21, &mut device);
    assert!(device.device().drawn > drawn, "it looks different now");
    assert!(skipped.is_empty);
    assert_eq!(c.queue_frame(&mut device, "b"), Err(FrameError::EmptyFrame));
    let shown = render(&mut c, &elements, white(), FrameFlags::DEFAULT, 22, &mut device);
    assert!(!shown.is_empty);
}

#[test]
fn overlays_do_not_overlap_what_a_higher_plane_shows() {
    let overlays = vec![plane(50, PlaneType::Overlay, 1), plane(51, PlaneType::Overlay, 2)];
    let mut c = compositor_with(CursorPlanePolicy::Atomic, overlays);
    let mut device = Wired::new(Board::willing());
    let front = element(1, Kind::ScanoutCandidate, rect(0, 0, 30, 30), false);
    let beside = element(2, Kind::ScanoutCandidate, rect(40, 0, 30, 30), false);
    let below = element(3, Kind::ScanoutCandidate, rect(10, 10, 30, 30), false);
    let apart = render(
        &mut c,
        &vec![front.clone(), beside],
        white(),
        FrameFlags::DEFAULT,
        20,
        &mut device,
    );
    assert_eq!(apart.overlay_elements.len(), 2);
    let overlapping = render(
        &mut c,
        &vec![front, below],
        white(),
        FrameFlags::DEFAULT,
        21,
        &mut device,
    );
    assert_eq!(overlapping.overlay_elements, vec![0]);
}

#[test]
fn a_refused_frame_renders_what_was_not_tested() {
    let mut c = compositor();
    let mut device = Wired::new(Board::willing());
    let elements = vec![
        element(1, Kind::ScanoutCandidate, rect(0, 0, 50, 50), false),
        element(2, Kind::Unspecified, rect(60, 0, 20, 20), false),
    ];
    let first = render(&mut c, &elements, white(), FrameFlags::DEFAULT, 20, &mut device);
    assert_eq!(first.overlay_elements, vec![0], "it passed its own test");
    submit(&mut c, &mut device, "a");
    let moved = vec![
        element(1, Kind::ScanoutCandidate, rect(0, 0, 50, 50), false),
        element(2, Kind::Cursor, rect(60, 0, 20, 20), false),
    ];
    let mut wary = Wired::new(Board { refuse_tests: 1, ..Board::willing() });
    c.reset_pending = true;
    let second = render(&mut c, &moved, white(), FrameFlags::ALLOW_OVERLAY_PLANE_SCANOUT, 21, &mut wary);
    assert!(second.overlay_elements.is_empty(), "the untested element is given up");
    assert!(matches!(
        second.states.get(1).map(|s| s.presentation_state),
        Some(RenderElementPresentationState::Rendering { reason: None })
    ));
}

#[test]
fn hidden_elements_are_reported_as_skipped() {
    let mut c = compositor();
    let mut device = Wired::new(Board::willing());
    let elements = vec![
        element(1, Kind::Unspecified, rect(0, 0, 100, 80), true),
        element(2, Kind::Unspecified, rect(10, 10, 20, 20), true),
        element(3, Kind::Unspecified, rect(200, 10, 20, 20), true),
    ];
    let result = render(&mut c, &elements, white(), 0, 20, &mut device);
    assert_eq!(result.states.get(1), Some(RenderElementState::rendered(8000)));
    assert_eq!(result.states.get(2), Some(RenderElementState::skipped()));
    assert_eq!(result.states.get(3), Some(RenderElementState::skipped()));
}

#[test]
fn a_single_color_behind_everything_becomes_the_clear_color() {
    let mut c = compositor();
    let mut device = Wired::new(Board::willing());
    let mut backdrop = element(2, Kind::Unspecified, rect(0, 0, 100, 80), true);
    backdrop.info.single_pixel = Some(black());
    let elements = vec![element(1, Kind::Unspecified, rect(0, 0, 50, 50), false), backdrop];
    let result = render(&mut c, &elements, white(), FrameFlags::DEFAULT, 20, &mut device);
    assert_eq!(
        result.primary_element,
        PrimaryPlaneElement::Element(0),
        "the element above it is the last one, beside black"
    );
    assert_eq!(result.states.get(2), Some(RenderElementState::rendered(5500 + 2500)));
}

#[test]
fn frames_queue_up_behind_the_one_on_its_way() {
    let mut c = compositor();
    let mut device = Wired::new(Board::willing());
    let elements = vec![element(1, Kind::Unspecified, rect(0, 0, 50, 50), false)];
    render(&mut c, &elements, white(), FrameFlags::DEFAULT, 20, &mut device);
    submit(&mut c, &mut device, "first");
    assert_eq!(device.device().flips.len(), 1);
    render(&mut c, &elements, white(), FrameFlags::DEFAULT, 21, &mut device);
    submit(&mut c, &mut device, "second");
    assert_eq!(device.device().flips.len(), 1, "one is on its way");
    assert_eq!(device.device().submitted, vec![20, 21]);
    c.set_presentation_mode(PresentationMode::Async);
    assert_eq!(c.frame_submitted(&mut device), Ok(Some("first")));
    assert_eq!(device.device().asked_async, vec![false, true]);
    assert_eq!(device.device().commits, 0);
    assert_eq!(c.pending_presentation_mode(), PresentationMode::Async);
    assert_eq!(c.frame_submitted(&mut device), Ok(Some("second")));
    assert_eq!(c.pending_presentation_mode(), PresentationMode::Vsync);
}

#[test]
fn inactive_devices_and_missing_modes_are_errors() {
    let mut c = compositor();
    let mut device = Wired::new(Board { active: false, ..Board::willing() });
    let nothing = vec![];
    assert!(matches!(
        c.render_frame(&mut device, &nothing, white(), FrameFlags::new(0), Some(mode())),
        Err(Failure::PrepareFrame(Error::DrmError(DrmError::DeviceInactive)))
    ));
    assert_eq!(
        c.queue_frame(&mut device, "x"),
        Err(Error::DrmError(DrmError::DeviceInactive))
    );
    set(&mut device, |board| board.active = true);
    assert!(matches!(
        c.render_frame(&mut device, &nothing, white(), FrameFlags::new(0), None),
        Err(Failure::RenderFrame(_))
    ));
    assert_eq!(c.queue_frame(&mut device, "x"), Err(Error::EmptyFrame));
    assert_eq!(c.commit_frame(&mut device), Err(Error::EmptyFrame));
    set(&mut device, |board| board.no_claims = vec![PRIMARY]);
    assert!(matches!(
        c.render_frame(&mut device, &nothing, white(), FrameFlags::new(0), Some(mode())),
        Err(Failure::PrepareFrame(Error::PrimaryPlaneClaimFailed))
    ));
    set(&mut device, |board| board.slot = None);
    assert!(matches!(
        c.render_frame(&mut device, &nothing, white(), FrameFlags::new(0), Some(mode())),
        Err(Failure::PrepareFrame(Error::NoFreeSlotsError))
    ));
}

#[test]
fn what_stops_the_renderer_stops_the_frame() {
    let mut c = compositor();
    let mut device = Wired::new(Board { slot_exports: 1, ..Board::willing() });
    let nothing = vec![];
    assert!(matches!(
        c.render_frame(&mut device, &nothing, white(), FrameFlags::new(0), Some(mode())),
        Err(Failure::PrepareFrame(Error::AsDmabufError(())))
    ));
    set(&mut device, |board| board.slot_exports = 1000);
    set(&mut device, |board| board.render_failure = Some(RenderFailure::Bind(())));
    assert!(matches!(
        c.render_frame(&mut device, &nothing, white(), FrameFlags::new(0), Some(mode())),
        Err(Failure::RenderFrame(OutputDamageTrackerError::Rendering(())))
    ));
    assert_eq!(device.device().resets, 0);
    set(&mut device, |board| board.render_failure = Some(RenderFailure::Render(OutputDamageTrackerError::Rendering(()))));
    assert!(matches!(
        c.render_frame(&mut device, &nothing, white(), FrameFlags::new(0), Some(mode())),
        Err(Failure::RenderFrame(OutputDamageTrackerError::Rendering(())))
    ));
    assert_eq!(device.device().resets, 1, "what was drawn halfway is not to be trusted");
    assert!(c.next_frame.is_none());
}

#[test]
fn a_reset_lasts_until_a_full_update_is_accepted() {
    let mut c = compositor();
    let mut device = Wired::new(Board::willing());
    let elements = vec![element(1, Kind::Unspecified, rect(0, 0, 50, 50), false)];
    render(&mut c, &elements, white(), FrameFlags::DEFAULT, 20, &mut device);
    assert_eq!(c.next_frame.as_ref().map(|prepared| prepared.kind), Some(PreparedFrameKind::Full));
    let refused = DrmError::Access { invalid_input: true, raw_os_error: Some(22) };
    set(&mut device, |board| board.refuse_flip = Some(refused));
    assert_eq!(c.commit_frame(&mut device), Err(Error::DrmError(refused)));
    assert_eq!(device.device().submitted, vec![20]);
    assert!(c.reset_pending);
    render(&mut c, &elements, white(), FrameFlags::DEFAULT, 21, &mut device);
    assert_eq!(c.commit_frame(&mut device), Ok(()));
    assert_eq!(device.device().commits, 2);
    assert!(!c.reset_pending);
    assert!(c.current_frame.is_assigned(PRIMARY));
    assert_eq!(c.reset_state(&mut device), Ok(()));
    assert!(c.reset_pending);
}

#[test]
fn framebuffers_are_kept_while_their_buffers_live() {
    let mut c = compositor();
    let mut device = Wired::new(Board::willing());
    let elements = vec![
        element(1, Kind::ScanoutCandidate, rect(0, 0, 50, 50), false),
        element(2, Kind::Unspecified, rect(60, 0, 20, 20), false),
    ];
    render(&mut c, &elements, white(), FrameFlags::DEFAULT, 20, &mut device);
    let exports = device.device().exports;
    assert!(exports > 0);
    render(&mut c, &elements, white(), FrameFlags::DEFAULT, 21, &mut device);
    assert_eq!(device.device().exports, exports, "the framebuffers were kept");
    set(&mut device, |board| board.dead = vec![1001]);
    render(&mut c, &elements, white(), FrameFlags::DEFAULT, 22, &mut device);
    assert_eq!(device.device().exports, exports);
    render(&mut c, &elements, white(), FrameFlags::DEFAULT, 23, &mut device);
    assert_eq!(device.device().exports, exports + 1, "the one of the dead buffer was dropped");
}

#[test]
fn framebuffers_of_the_swapchain_are_made_once() {
    let mut c = compositor();
    let mut device = Wired::new(Board::willing());
    let nothing = vec![];
    for slot in [20, 21, 20, 21] {
        render(&mut c, &nothing, white(), FrameFlags::DEFAULT, slot, &mut device);
    }
    assert_eq!(device.device().kept.iter().map(|(id, _)| *id).collect::<Vec<_>>(), vec![20, 21]);
}

#[test]
fn elements_out_of_range_are_not_composable() {
    let c = compositor();
    let output = mode().output();
    let with = |x: i32, w: i32| vec![element(1, Kind::Unspecified, rect(x, 0, w, 10), false)];
    assert!(is_composable(&with(5, 10), &output, &c.core));
    assert!(!is_composable(&with(5, i32::MAX), &output, &c.core));
    assert!(is_composable(&with(5, -10), &output, &c.core), "nothing of it is on the output");
    assert!(is_composable(&with(i32::MAX, 10), &output, &c.core), "nor of this one");
    let mut away = with(5, 10);
    away[0].info.location = Point::from((i32::MIN, 0));
    assert!(is_composable(&away, &output, &c.core), "only cursors have a place of their own");
    away[0].info.kind = Kind::Cursor;
    let turned = OutputMode { transform: Transform::_180, ..mode() };
    assert!(!is_composable(&away, &turned.output(), &c.core));
    let mut odd = with(5, 10);
    odd[0].info.alpha = F32 { bits: 0x7fc0_0000 };
    assert!(!is_composable(&odd, &output, &c.core));
    let mut far = with(5, 10);
    far[0].opaque_regions = vec![rect(i32::MAX, 0, 1, 1)];
    assert!(!is_composable(&far, &output, &c.core));
    let huge = OutputMode { size: Size::from((65536, 65536)), ..mode() };
    assert!(!is_composable(&vec![], &huge.output(), &c.core));
}

#[test]
fn an_invalid_flip_keeps_the_element_off_the_primary_plane() {
    let mut c = compositor();
    let mut device = Wired::new(Board::willing());
    render(&mut c, &vec![], white(), FrameFlags::DEFAULT, 19, &mut device);
    submit(&mut c, &mut device, "empty");
    assert!(c.frame_submitted(&mut device).is_ok());
    let elements = vec![element(1, Kind::Unspecified, rect(0, 0, 100, 80), true)];
    let result = render(&mut c, &elements, white(), FrameFlags::DEFAULT, 20, &mut device);
    assert_eq!(result.primary_element, PrimaryPlaneElement::Element(0));
    let refused = DrmError::Access { invalid_input: true, raw_os_error: Some(22) };
    set(&mut device, |board| board.refuse_flip = Some(refused));
    assert_eq!(c.queue_frame(&mut device, "full"), Err(Error::DrmError(refused)));
    let again = render(&mut c, &elements, white(), FrameFlags::DEFAULT, 21, &mut device);
    assert!(matches!(again.primary_element, PrimaryPlaneElement::Swapchain { .. }));
}

#[test]
fn clearing_makes_every_plane_idle() {
    let mut c = compositor();
    let mut device = Wired::new(Board::willing());
    let elements = vec![element(1, Kind::Unspecified, rect(0, 0, 50, 50), false)];
    render(&mut c, &elements, white(), FrameFlags::DEFAULT, 20, &mut device);
    submit(&mut c, &mut device, "a");
    assert!(c.frame_submitted(&mut device).is_ok());
    assert!(c.current_frame.is_assigned(PRIMARY));
    assert_eq!(c.clear(&mut device), Ok(()));
    assert!(!c.current_frame.is_assigned(PRIMARY));
    assert!(c.pending_frame.is_none() && c.queued_frame.is_none() && c.next_frame.is_none());
}

#[test]
fn updates_name_the_planes_that_changed_or_are_in_use() {
    let mut c = compositor();
    let mut device = Wired::new(Board::willing());
    let elements = vec![
        element(1, Kind::ScanoutCandidate, rect(0, 0, 50, 50), false),
        element(2, Kind::Unspecified, rect(60, 0, 20, 20), false),
    ];
    render(&mut c, &elements, white(), FrameFlags::DEFAULT, 20, &mut device);
    let PreparedFrame { mut frame, .. } = c.next_frame.take().expect("it was prepared");
    let fences = frame.fences_to_export(true);
    assert_eq!(fences, vec![(0, SyncPoint::Pending(6))]);
    assert!(frame.fences_to_export(false).is_empty());
    frame.store_fence(0, Some(12));
    assert!(frame.fences_to_export(true).is_empty());
    assert_eq!(frame.planes_to_claim(false), vec![CURSOR]);
    assert!(frame.planes_to_claim(true).is_empty());
    let partial = frame.build_planes(true, &vec![]);
    assert_eq!(partial.iter().map(|p| p.handle).collect::<Vec<_>>(), vec![PRIMARY, OVERLAY]);
    let primary = partial[0].config.expect("it shows the swapchain");
    assert_eq!((primary.fb, primary.fence, primary.damage_clips), (20, Some(12), Some(3)));
    assert_eq!(primary.dst, rect(0, 0, 100, 80));
    let full = frame.build_planes(false, &vec![CURSOR]);
    assert_eq!(full.iter().map(|p| p.handle).collect::<Vec<_>>(), vec![PRIMARY, CURSOR, OVERLAY]);
    assert_eq!(full[1].config, None);
}

#[test]
fn failures_are_sorted_by_what_can_be_done_about_them() {
    type Swap = SwapBuffersError<u8, u8, u8>;
    let swap = |error: FrameError<u8, u8, u8>| Swap::from(error);
    assert_eq!(swap(FrameError::NoFreeSlotsError), Swap::TemporaryFailure(FrameError::NoFreeSlotsError));
    assert_eq!(swap(FrameError::EmptyFrame), Swap::TemporaryFailure(FrameError::EmptyFrame));
    assert_eq!(swap(FrameError::NoFramebuffer), Swap::ContextLost(FrameError::NoFramebuffer));
    assert_eq!(
        swap(FrameError::PrimaryPlaneClaimFailed),
        Swap::ContextLost(FrameError::PrimaryPlaneClaimFailed)
    );
    assert_eq!(
        swap(FrameError::NoSupportedPlaneFormat),
        Swap::ContextLost(FrameError::NoSupportedPlaneFormat)
    );
    assert_eq!(
        swap(FrameError::NoSupportedRendererFormat),
        Swap::ContextLost(FrameError::NoSupportedRendererFormat)
    );
    assert_eq!(swap(FrameError::Allocator(1)), Swap::AllocatorLost(1));
    assert_eq!(swap(FrameError::AsDmabufError(2)), Swap::ExportLost(2));
    assert_eq!(swap(FrameError::FramebufferExport(3)), Swap::FramebufferLost(3));
    assert_eq!(swap(FrameError::DrmError(DrmError::Other(4))), Swap::Drm(DrmError::Other(4)));
    let slot = Slot { id: 1, format: format(ARGB) };
    assert_eq!(FrameError::<u8, u8, u8>::acquired(Ok(Some(slot))), Ok(slot));
    assert_eq!(FrameError::<u8, u8, u8>::acquired(Ok(None)), Err(FrameError::NoFreeSlotsError));
    assert_eq!(FrameError::<u8, u8, u8>::acquired(Err(9)), Err(FrameError::Allocator(9)));
    assert_eq!(FrameError::<u8, u8, u8>::framebuffer(Ok(None)), Err(FrameError::NoFramebuffer));
    assert_eq!(FrameError::<u8, u8, u8>::framebuffer(Err(9)), Err(FrameError::FramebufferExport(9)));
}

#[test]
fn a_mode_change_forgets_the_legacy_cursor() {
    let mut c = compositor_with(CursorPlanePolicy::Legacy, vec![]);
    let mut device = Wired::new(Board::willing());
    let elements = vec![element(1, Kind::Cursor, rect(3, 5, 24, 24), false)];
    let result = render(&mut c, &elements, white(), FrameFlags::DEFAULT, 20, &mut device);
    let token = result.legacy_cursor.expect("it is presented").token;
    assert!(c.has_legacy_cursor());
    let there = Point::from((7, 9));
    assert!(matches!(
        c.move_legacy_cursor(&mut device, token, there),
        LegacyCursorMoveResult::Moved(presentation) if presentation.physical_origin == there
    ));
    assert_eq!(device.device().moved_to.last(), Some(&there));
    c.set_output_mode_source(&mut device, OutputModeSource::Static(mode()));
    assert_eq!(device.device().damage_resets, 0, "the same source");
    assert_eq!(c.move_refusal(token), None);
    c.set_output_mode_source(&mut device, OutputModeSource::Auto(1));
    assert_eq!(device.device().damage_resets, 1);
    assert!(!c.has_legacy_cursor());
    assert_eq!(device.device().legacy, None, "it was taken off");
    assert_eq!(
        c.move_legacy_cursor(&mut device, token, there),
        LegacyCursorMoveResult::NotActive
    );
    let resets = device.device().resets;
    c.set_debug_flags(&mut device, 1);
    assert_eq!(device.device().resets, resets + 1, "what was rendered before is of no use any more");
    c.set_debug_flags(&mut device, 1);
    assert_eq!(device.device().resets, resets + 1, "nothing changed");
    assert_eq!(c.debug_flags(), 1);
    assert_eq!(c.plane(), PRIMARY);
}

#[test]
fn a_mode_that_can_be_used_resizes_the_buffers() {
    let mut c = compositor();
    let mut device = Wired::new(Board::willing());
    assert_eq!(c.use_mode(&mut device, 0, Size::from((5, 5))), Err(Error::DrmError(DrmError::Other(2))));
    assert!(device.device().sizes.is_empty());
    assert_eq!(c.use_mode(&mut device, 1, Size::from((5, 5))), Ok(()));
    assert_eq!(device.device().sizes, vec![Size::from((5, 5))]);
    c.reset_buffers(&mut device);
    assert_eq!(device.device().resets, 1);
}

#[test]
fn rendering_over_a_scanned_out_element_damages_everything() {
    let mut c = compositor();
    let mut device = Wired::new(Board::willing());
    let full = vec![element(1, Kind::Unspecified, rect(0, 0, 100, 80), true)];
    render(&mut c, &full, white(), FrameFlags::DEFAULT, 20, &mut device);
    submit(&mut c, &mut device, "a");
    let previous = c.previous_frame().duplicate();
    let scanned = previous.plane_state(PRIMARY).expect("known");
    assert!(scanned.element_state.is_some());
    assert!(matches!(scanned.buffer().map(|b| b.buffer), Some(ScanoutBuffer::Wayland(_))));
    let small = vec![element(1, Kind::Unspecified, rect(0, 0, 50, 50), false)];
    set(&mut device, |board| board.render_damage = false);
    let result = render(&mut c, &small, white(), FrameFlags::DEFAULT, 21, &mut device);
    assert!(!result.is_empty, "the element has to be replaced although nothing was damaged");
}

fn table() -> FormatTable {
    FormatTable {
        formats: vec![
            FormatTraits { code: ARGB, opaque: Some(XRGB), has_alpha: true },
            FormatTraits { code: XRGB, opaque: None, has_alpha: false },
        ],
    }
}

fn start(
    device: &mut Wired,
    plane_formats: Vec<Format>,
    colors: Vec<u32>,
    renderer_formats: Vec<Format>,
    is_legacy: bool,
) -> Result<DrmCompositor<&'static str>, Error> {
    let mut primary = plane(PRIMARY, PlaneType::Primary, 1);
    primary.formats = plane_formats;
    let planes = Planes {
        primary: vec![],
        cursor: vec![plane(CURSOR, PlaneType::Cursor, 9)],
        overlay: vec![
            plane(UNDERLAY, PlaneType::Overlay, 0),
            plane(OVERLAY, PlaneType::Overlay, 5),
        ],
    };
    assert!(are_planes_usable(&primary, &planes));
    DrmCompositor::new(
        device,
        OutputModeSource::Static(mode()),
        primary,
        planes,
        is_legacy,
        table(),
        colors,
        &renderer_formats,
        Size::from((100, 80)),
        Size::from((64, 64)),
        true,
    )
}

#[test]
fn the_first_format_that_works_is_taken() {
    let mut device = Wired::new(Board::willing());
    let formats = vec![format(ARGB), Format { code: ARGB, modifier: 7 }, format(XRGB)];
    let c = match start(&mut device, formats.clone(), vec![ARGB, XRGB], formats.clone(), false) {
        Ok(c) => c,
        Err(error) => panic!("{error:?}"),
    };
    assert_eq!(device.device().swapchains, vec![(ARGB, vec![0, 7])]);
    assert_eq!((device.device().tests, device.device().modeset_tests), (1, 1));
    assert!(!c.primary_is_opaque && c.supports_fencing && c.reset_pending);
    assert_eq!(c.core.signaled_fence, Some(500));
    assert_eq!(
        c.core.planes.overlay.iter().map(|p| p.handle).collect::<Vec<_>>(),
        vec![OVERLAY, UNDERLAY],
        "front to back"
    );

    let mut wary = Wired::new(Board { refuse_tests: 1, ..Board::willing() });
    assert!(start(&mut wary, formats.clone(), vec![ARGB, XRGB], formats.clone(), false).is_ok());
    assert_eq!(wary.device().swapchains.last().map(|(code, _)| *code), Some(XRGB));

    let mut unwilling = Wired::new(Board { refuse_tests: 2, ..Board::willing() });
    assert!(matches!(
        start(&mut unwilling, formats.clone(), vec![ARGB, XRGB], formats.clone(), false),
        Err(Error::DrmError(DrmError::Other(1)))
    ));
    assert!(matches!(
        start(&mut device, vec![format(1)], vec![ARGB], formats.clone(), false),
        Err(Error::NoSupportedPlaneFormat)
    ));
    assert!(matches!(
        start(&mut device, formats.clone(), vec![ARGB], vec![format(1)], false),
        Err(Error::NoSupportedRendererFormat)
    ));
}

#[test]
fn a_plane_without_alpha_takes_the_opaque_format() {
    let mut device = Wired::new(Board::willing());
    let c = start(&mut device, vec![format(XRGB)], vec![ARGB], vec![format(ARGB)], false);
    assert!(c.is_ok_and(|c| c.primary_is_opaque));
    assert_eq!(device.device().swapchains, vec![(ARGB, vec![0])]);
}

#[test]
fn legacy_surfaces_have_neither_planes_nor_fences() {
    let mut device = Wired::new(Board::willing());
    let formats = vec![format(ARGB)];
    let c = start(&mut device, formats.clone(), vec![ARGB], formats, true);
    assert!(c.is_ok_and(|c| c.core.planes.overlay.is_empty() && c.core.planes.cursor.is_empty()
        && !c.supports_fencing));
}

#[test]
fn fences_of_nvidia_drivers_depend_on_their_version() {
    let formats = vec![format(ARGB)];
    for (version, expected) in [
        (None, false),
        (Some("550.90.7"), false),
        (Some("560.35.3"), true),
        (Some("nonsense"), false),
    ] {
        let mut device = Wired::new(Board { driver: "NVIDIA-drm", version, ..Board::willing() });
        let c = start(&mut device, formats.clone(), vec![ARGB], formats.clone(), false);
        assert!(c.is_ok_and(|c| c.supports_fencing == expected), "{version:?}");
    }
}

#[test]
fn a_format_that_fails_is_not_set() {
    let mut device = Wired::new(Board::willing());
    let formats = vec![format(ARGB), format(XRGB)];
    let mut c = match start(&mut device, formats.clone(), vec![ARGB], formats, false) {
        Ok(c) => c,
        Err(error) => panic!("{error:?}"),
    };
    set(&mut device, |board| board.refuse_tests = 1);
    let size = Size::from((100, 80));
    assert_eq!(
        c.set_format(&mut device, size, XRGB, &vec![0]),
        Err(Error::DrmError(DrmError::Other(1)))
    );
    assert_eq!(device.device().swapchains.last().map(|(code, _)| *code), Some(ARGB));
    assert_eq!(c.set_format(&mut device, size, XRGB, &vec![0]), Ok(()));
    assert_eq!(device.device().swapchains.last().map(|(code, _)| *code), Some(XRGB));
    assert_eq!(c.set_format(&mut device, size, XRGB, &vec![9]), Err(Error::NoSupportedPlaneFormat));
    let modifiers = vec![0];
    assert!(DrmCompositor::<&'static str>::with_format(
        &mut device,
        OutputModeSource::Auto(1),
        plane(PRIMARY, PlaneType::Primary, 1),
        Planes { primary: vec![], cursor: vec![], overlay: vec![] },
        false,
        table(),
        ARGB,
        &modifiers,
        size,
        size,
        false,
    )
    .is_ok_and(|c| c.core.cursor.is_none()));
}

#[test]
fn frames_are_never_empty_while_a_reset_is_due() {
    let mut c = compositor();
    let mut device = Wired::new(Board { render_damage: false, ..Board::willing() });
    let nothing = vec![];
    assert!(!render(&mut c, &nothing, white(), FrameFlags::DEFAULT, 20, &mut device).is_empty);
    submit(&mut c, &mut device, "a");
    assert_eq!(c.frame_submitted(&mut device), Ok(Some("a")));
    assert!(render(&mut c, &nothing, white(), FrameFlags::DEFAULT, 21, &mut device).is_empty);
    assert_eq!(c.reset_state(&mut device), Ok(()));
    assert!(!render(&mut c, &nothing, white(), FrameFlags::DEFAULT, 22, &mut device).is_empty);
}

#[test]
fn nothing_is_rendered_where_every_element_has_a_plane() {
    let mut c = compositor();
    let mut device = Wired::new(Board::willing());
    let elements = vec![
        element(1, Kind::Cursor, rect(70, 50, 24, 24), false),
        element(2, Kind::ScanoutCandidate, rect(0, 0, 50, 50), false),
        element(3, Kind::Unspecified, rect(0, 0, 100, 80), true),
    ];
    let result = render(&mut c, &elements, white(), FrameFlags::DEFAULT, 20, &mut device);
    assert_eq!(result.primary_element, PrimaryPlaneElement::Element(2));
    assert_eq!(result.overlay_elements, vec![1]);
    assert_eq!(result.cursor_element, Some(0));
    let prepared = c.next_frame.as_ref().expect("something changed");
    for (plane, id) in [(CURSOR, 1), (OVERLAY, 2), (PRIMARY, 3)] {
        let state = prepared.frame.plane_state(plane).expect("known");
        assert_eq!(state.element_state.map(|shown| shown.id), Some(id));
    }

    let mut again = compositor();
    let mut wary = Wired::new(Board { refuse_tests: 1, ..Board::willing() });
    let result = render(&mut again, &elements, white(), FrameFlags::DEFAULT, 20, &mut wary);
    assert_eq!(result.cursor_element, None, "the cursor was refused its plane");
    assert!(
        result.overlay_elements.contains(&0)
            || matches!(result.primary_element, PrimaryPlaneElement::Swapchain { .. }),
        "then it has another plane or is rendered"
    );
}

#[test]
fn planes_are_usable_where_each_is_listed_once() {
    let primary = plane(PRIMARY, PlaneType::Primary, 1);
    let with = |cursor: Vec<u32>, overlay: Vec<u32>| Planes {
        primary: vec![],
        cursor: cursor.into_iter().map(|handle| plane(handle, PlaneType::Cursor, 9)).collect(),
        overlay: overlay.into_iter().map(|handle| plane(handle, PlaneType::Overlay, 5)).collect(),
    };
    assert!(are_planes_usable(&primary, &with(vec![20, 21], vec![30, 31])));
    assert!(!are_planes_usable(&primary, &with(vec![20, 20], vec![30])));
    assert!(!are_planes_usable(&primary, &with(vec![20], vec![30, 31, 30])));
    assert!(!are_planes_usable(&primary, &with(vec![20], vec![30, 20])));
    assert!(!are_planes_usable(&primary, &with(vec![20], vec![PRIMARY])));
    assert!(!are_planes_usable(&plane(PRIMARY, PlaneType::Overlay, 1), &with(vec![], vec![])));
}
