use compositor_core::buffer::{Format, FramebufferInfo, Slot};
use compositor_core::core_state::{FormatTable, FormatTraits};
use compositor_core::cursor_buffer::{
    copy_element_to_cursor_bo, copy_plan, copy_rows, copyable, CopyPlan, CursorDrawing, DrawRequest,
    PixelSource,
};
use compositor_core::buffer::{UnderlyingStorage, WaylandBuffer};
use compositor_core::element::{ElementInfo, Kind};
use compositor_core::error::{DrmError, FrameError};
use compositor_core::float::{F32, F64};
use compositor_core::format_probe::{FormatProbe, FormatSearch, ProbePhase};
use compositor_core::formats::{supported_modifiers, swapchain_format, FormatError};
use compositor_core::geometry::Transform::{Flipped, Flipped180, Flipped270, Flipped90, Normal, _180, _270, _90};
use compositor_core::geometry::{Point, Rectangle, Size, Transform};
use compositor_core::plane::{PlaneInfo, PlaneType, Planes, SrcRect};
use compositor_core::region::{fully_covered, subtract_rects_many, visible_area};
use compositor_core::setup::{is_nvidia, parse_driver_version, prepare_planes, FencingStep};
use compositor_core::transform::{apply_output_transform, apply_underlying_storage_transform};

const ARGB: u32 = 875713089;
const XRGB: u32 = 875713112;
const LINEAR: u64 = 0;
const INVALID: u64 = 0x00ff_ffff_ffff_ffff;

fn fmt(code: u32, modifier: u64) -> Format {
    Format { code, modifier }
}

fn table() -> FormatTable {
    FormatTable {
        formats: vec![FormatTraits { code: ARGB, opaque: Some(XRGB), has_alpha: true }],
    }
}

fn rect(x: i32, y: i32, w: i32, h: i32) -> Rectangle {
    Rectangle::new(Point::from((x, y)), Size::from((w, h)))
}

#[test]
fn swapchain_modifiers_are_shared_and_in_the_order_of_the_plane() {
    let plane = vec![fmt(ARGB, 7), fmt(ARGB, 5), fmt(7, 9), fmt(ARGB, 7), fmt(XRGB, 3)];
    let format = swapchain_format(&plane, &table(), ARGB, &vec![3, 5, 7, 5]).unwrap();
    assert_eq!(format.modifiers, vec![7, 5, 3]);
    assert!(!format.use_opaque);
    let opaque = swapchain_format(&vec![fmt(XRGB, 3)], &table(), ARGB, &vec![3]).unwrap();
    assert!(opaque.use_opaque);
    assert_eq!(
        swapchain_format(&plane, &table(), ARGB, &vec![9]).unwrap_err(),
        FormatError::NoSupportedPlaneFormat
    );
}

#[test]
fn renderer_and_plane_have_to_agree_on_a_modifier() {
    let plane = vec![fmt(ARGB, 7), fmt(ARGB, 5)];
    let renderer = vec![fmt(ARGB, 5), fmt(ARGB, 9), fmt(XRGB, 7)];
    assert_eq!(supported_modifiers(&plane, &renderer, &table(), ARGB), Ok(vec![5]));
    assert_eq!(
        supported_modifiers(&vec![fmt(3, 5)], &renderer, &table(), ARGB),
        Err(FormatError::NoSupportedPlaneFormat)
    );
    assert_eq!(
        supported_modifiers(&plane, &vec![fmt(XRGB, 5)], &table(), ARGB),
        Err(FormatError::NoSupportedRendererFormat)
    );
}

#[test]
fn linear_against_implicit_forces_implicit() {
    let implicit = vec![fmt(ARGB, INVALID), fmt(ARGB, INVALID)];
    let explicit = vec![fmt(ARGB, LINEAR), fmt(ARGB, 9)];
    assert_eq!(supported_modifiers(&implicit, &explicit, &table(), ARGB), Ok(vec![INVALID]));
    assert_eq!(
        supported_modifiers(&explicit, &vec![fmt(ARGB, INVALID)], &table(), ARGB),
        Ok(vec![INVALID])
    );
    let tiled = vec![fmt(ARGB, 9)];
    assert_eq!(supported_modifiers(&implicit, &tiled, &table(), ARGB), Ok(vec![]));
}

#[test]
fn a_format_is_probed_step_by_step() {
    let slot = Slot { id: 4, format: fmt(ARGB, 5) };
    let info = FramebufferInfo { handle: 6, format: fmt(ARGB, 5) };
    let begin = || FormatProbe::<u8, u8, u8>::begin(true, Size::from((640, 480)));
    let tested = begin()
        .acquired(Ok(slot))
        .exported(Ok(Size::from((640, 480))))
        .framebuffer(Ok(Some(info)))
        .claimed(Some(9));
    let planes = Planes { primary: vec![], cursor: vec![], overlay: vec![] };
    let frame = tested.test_frame(3, &planes, true);
    let state = frame.plane_state(3).expect("the primary plane");
    assert!(state.needs_test && !state.skip);
    assert_eq!(state.config.unwrap().properties.dst, rect(0, 0, 640, 480));
    let src = state.config.unwrap().properties.src;
    assert_eq!(f64::from_bits(src.w.bits), 640.0);
    assert_eq!(f64::from_bits(src.h.bits), 480.0);
    assert!(matches!(tested.tested(Ok(())).phase, ProbePhase::Done(Ok(true))));

    assert!(matches!(
        begin().acquired(Err(1)).phase,
        ProbePhase::Done(Err(FrameError::Allocator(1)))
    ));
    assert!(matches!(
        begin().acquired(Ok(slot)).exported(Err(2)).phase,
        ProbePhase::Done(Err(FrameError::AsDmabufError(2)))
    ));
    let exported = || begin().acquired(Ok(slot)).exported(Ok(Size::from((640, 480))));
    assert!(matches!(
        exported().framebuffer(Ok(None)).phase,
        ProbePhase::Done(Err(FrameError::NoFramebuffer))
    ));
    assert!(matches!(
        exported().framebuffer(Ok(Some(info))).claimed(None).phase,
        ProbePhase::Done(Err(FrameError::PrimaryPlaneClaimFailed))
    ));
    assert!(matches!(
        exported().framebuffer(Ok(Some(info))).claimed(Some(1)).tested(Err(DrmError::Other(1))).phase,
        ProbePhase::Done(Err(FrameError::DrmError(DrmError::Other(1))))
    ));
}

#[test]
fn formats_are_tried_in_order_and_the_last_error_is_kept() {
    let mut search = FormatSearch::<u8, u8, u8>::begin(vec![1, 2]);
    assert_eq!(search.current(), Some(1));
    search.failed(FormatError::NoSupportedPlaneFormat.frame_error());
    assert_eq!(search.current(), Some(2));
    search.failed(FormatError::NoSupportedRendererFormat.frame_error());
    assert_eq!(search.current(), None);
    assert_eq!(search.into_error(), FrameError::NoSupportedRendererFormat);
}

fn plane(handle: u32, zpos: Option<i32>) -> PlaneInfo {
    PlaneInfo { handle, type_: PlaneType::Overlay, zpos, formats: vec![], size_hints: None }
}

#[test]
fn overlay_planes_are_sorted_front_to_back_and_stable() {
    let planes = Planes {
        primary: vec![],
        cursor: vec![plane(9, None)],
        overlay: vec![plane(1, Some(2)), plane(2, None), plane(3, Some(5)), plane(4, Some(2)), plane(5, Some(-1))],
    };
    let sorted = prepare_planes(planes.clone(), false);
    assert_eq!(sorted.overlay.iter().map(|p| p.handle).collect::<Vec<_>>(), vec![3, 1, 4, 2, 5]);
    assert_eq!(sorted.cursor.len(), 1);
    let legacy = prepare_planes(planes, true);
    assert!(legacy.overlay.is_empty() && legacy.cursor.is_empty());
}

#[test]
fn driver_versions_are_read_out_of_the_module_text() {
    assert_eq!(parse_driver_version("560.35.03\n"), Some((560, 35, 3)));
    assert_eq!(parse_driver_version(" \t550.120.1.7 "), Some((550, 120, 1)));
    assert_eq!(parse_driver_version("+5.0.4294967295"), Some((5, 0, 4294967295)));
    assert_eq!(parse_driver_version("5.0.4294967296"), None);
    assert_eq!(parse_driver_version("560.35"), None);
    assert_eq!(parse_driver_version("560..3"), None);
    assert_eq!(parse_driver_version("a.b.c"), None);
    assert_eq!(parse_driver_version("-1.2.3"), None);
    assert_eq!(parse_driver_version("+.2.3"), None);
    assert_eq!(parse_driver_version(""), None);
}

#[test]
fn old_nvidia_drivers_get_no_fences() {
    assert!(is_nvidia("nvidia-drm", "") && is_nvidia("x", "NVIDIA DRM driver") && is_nvidia("nVidIa", ""));
    assert!(!is_nvidia("i915", "Intel") && !is_nvidia("nvidi", "a"));
    assert_eq!(FencingStep::start(true), FencingStep::Done(false));
    assert_eq!(FencingStep::start(false), FencingStep::QueryCapability);
    assert_eq!(FencingStep::after_capability(0), FencingStep::Done(false));
    assert_eq!(FencingStep::after_capability(1), FencingStep::QueryProperty);
    assert_eq!(FencingStep::after_property(false, false, None), FencingStep::Done(false));
    assert_eq!(FencingStep::after_property(true, false, None), FencingStep::Done(true));
    assert_eq!(FencingStep::after_property(true, true, None), FencingStep::Done(false));
    assert_eq!(FencingStep::after_property(true, true, Some((560, 35, 2))), FencingStep::Done(false));
    assert_eq!(FencingStep::after_property(true, true, Some((560, 35, 3))), FencingStep::Done(true));
    assert_eq!(FencingStep::after_property(true, true, Some((561, 0, 0))), FencingStep::Done(true));
}

#[test]
fn transforms_compose() {
    assert_eq!(apply_output_transform(_90, Normal), _270);
    assert_eq!(apply_output_transform(_90, Flipped180), Flipped90);
    assert_eq!(apply_output_transform(_180, Flipped90), Flipped270);
    assert_eq!(apply_output_transform(_270, _180), _270);
    assert_eq!(apply_output_transform(Flipped, _270), Flipped270);
    assert_eq!(apply_output_transform(Flipped90, Flipped), _270);
    assert_eq!(apply_output_transform(Flipped270, _90), Flipped180);
    assert_eq!(apply_output_transform(Normal, Flipped90), Flipped90);
    let stored = |y_inverted| UnderlyingStorage::Wayland(WaylandBuffer { id: 1, y_inverted, has_acquire_point: false });
    assert_eq!(apply_underlying_storage_transform(_90, &stored(Some(true))), Flipped90);
    assert_eq!(apply_underlying_storage_transform(Flipped180, &stored(Some(true))), _180);
    assert_eq!(apply_underlying_storage_transform(_90, &stored(None)), _90);
    assert_eq!(apply_underlying_storage_transform(_90, &UnderlyingStorage::Memory), _90);
    assert_eq!(_90.invert(), _270);
    assert_eq!(Flipped90.invert(), Flipped270);
    assert_eq!(
        _90.transform_rect_in(rect(10, 20, 30, 40), Size::from((100, 200))),
        rect(140, 10, 40, 30)
    );
}

#[test]
fn regions_count_what_is_left_uncovered() {
    let holes = vec![rect(2, 2, 4, 4), rect(4, 4, 10, 10)];
    assert_eq!(visible_area(rect(0, 0, 10, 10), &holes), 100 - 16 - 36 + 4);
    assert_eq!(visible_area(rect(0, 0, 10, 10), &vec![]), 100);
    assert!(fully_covered(rect(0, 0, 10, 10), &vec![rect(0, 0, 5, 10), rect(5, -3, 9, 20)]));
    assert!(!fully_covered(rect(0, 0, 10, 10), &vec![rect(0, 0, 5, 10), rect(6, 0, 9, 20)]));
    let pieces = subtract_rects_many(rect(0, 0, 10, 10), &vec![rect(2, 3, 4, 4)]);
    assert_eq!(pieces, vec![rect(0, 0, 10, 3), rect(0, 3, 2, 4), rect(6, 3, 4, 4), rect(0, 7, 10, 3)]);
    assert_eq!(rect(0, 0, 10, 10).intersection(rect(8, 8, 10, 10)), Some(rect(8, 8, 2, 2)));
    assert_eq!(rect(0, 0, 10, 10).intersection(rect(10, 0, 10, 10)), None);
}

#[test]
fn integers_have_the_bits_of_the_double_they_equal() {
    for v in [0, 1, -1, 2, 3, -7, 24, 640, 1920, 4095, i32::MAX, i32::MIN, 1 << 30] {
        assert_eq!(F64::from_i32(v).bits, (v as f64).to_bits());
    }
    let nan = F32 { bits: f32::NAN.to_bits() };
    assert!(!nan.same(nan));
    assert!(F32 { bits: (0.0f32).to_bits() }.same(F32 { bits: (-0.0f32).to_bits() }));
    assert!(F32::one().same(F32 { bits: (1.0f32).to_bits() }));
}

fn cursor(src: SrcRect, storage: Option<UnderlyingStorage>) -> ElementInfo {
    ElementInfo {
        id: 1,
        commit: 1,
        kind: Kind::Cursor,
        geometry: rect(0, 0, 24, 24),
        location: Point::from((0, 0)),
        src,
        transform: Transform::Normal,
        alpha: F32::one(),
        storage,
        exportable: false,
        is_framebuffer_effect: false,
        single_pixel: None,
    }
}

#[test]
fn only_plain_content_is_copied() {
    let size = Size::from((24, 24));
    let plain = cursor(SrcRect::whole(size), Some(UnderlyingStorage::Memory));
    assert!(copyable(&plain, size, Transform::Normal));
    assert!(!copyable(&plain, size, Transform::_90));
    assert!(!copyable(&plain, Size::from((48, 24)), Transform::Normal));
    assert!(!copyable(&cursor(SrcRect::whole(size), None), size, Transform::Normal));
    let cropped = SrcRect { x: F64::from_i32(1), ..SrcRect::whole(size) };
    assert!(!copyable(&cursor(cropped, Some(UnderlyingStorage::Memory)), size, Transform::Normal));
}

#[test]
fn pixels_are_copied_row_by_row_into_longer_rows() {
    let source = PixelSource { format: Some(ARGB), offset: 0, stride: 2, rows: 3, len: 6 };
    assert_eq!(copy_plan(source, ARGB, 2), Some(CopyPlan::Whole { offset: 0, len: 6 }));
    assert_eq!(copy_plan(source, ARGB, 4), Some(CopyPlan::Rows { offset: 0, stride: 2, rows: 3 }));
    assert_eq!(copy_plan(source, XRGB, 4), None);
    assert_eq!(copy_plan(PixelSource { format: None, ..source }, ARGB, 4), None);
    assert_eq!(copy_plan(PixelSource { offset: 1, ..source }, ARGB, 4), None);
    let mut target = vec![9; 12];
    copy_rows(&vec![1, 2, 3, 4, 5, 6], &mut target, 2, 4, 3);
    assert_eq!(target, vec![1, 2, 9, 9, 3, 4, 9, 9, 5, 6, 9, 9]);
}

#[test]
fn content_that_fits_as_it_is_gets_copied() {
    let size = Size::from((1, 3));
    let element = cursor(SrcRect::whole(size), Some(UnderlyingStorage::Memory));
    let source = PixelSource { format: Some(ARGB), offset: 1, stride: 2, rows: 3, len: 7 };
    let pixels = vec![0, 1, 2, 3, 4, 5, 6];
    let mut bo = vec![9; 12];
    assert!(copy_element_to_cursor_bo(&element, size, Transform::Normal, source, &pixels, &mut bo, ARGB, 4));
    assert_eq!(bo, vec![1, 2, 9, 9, 3, 4, 9, 9, 5, 6, 9, 9]);
    let mut bo = vec![9; 8];
    assert!(copy_element_to_cursor_bo(&element, size, Transform::Normal, source, &pixels, &mut bo, ARGB, 2));
    assert_eq!(bo, vec![1, 2, 3, 4, 5, 6, 9, 9]);
    let mut bo = vec![9; 12];
    assert!(!copy_element_to_cursor_bo(&element, size, Transform::_90, source, &pixels, &mut bo, ARGB, 4));
    assert!(!copy_element_to_cursor_bo(&element, size, Transform::Normal, source, &pixels, &mut bo, XRGB, 4));
    assert_eq!(bo, vec![9; 12]);
}

#[test]
fn a_cursor_that_can_not_be_copied_is_painted() {
    let size = Size::from((24, 24));
    let element = cursor(SrcRect::whole(size), Some(UnderlyingStorage::Memory));
    let begin = |has_renderer, supported| {
        CursorDrawing::begin(element, size, Size::from((64, 64)), Transform::Normal, true, has_renderer, supported)
    };
    let mut drawing = begin(true, true);
    assert_eq!(
        drawing.request(),
        DrawRequest::CreateBuffer { size: Size::from((64, 64)), code: ARGB, modifier: LINEAR }
    );
    drawing.created(Some(5));
    assert_eq!(drawing.request(), DrawRequest::ExportFramebuffer { buffer: 5 });
    let info = FramebufferInfo { handle: 6, format: fmt(ARGB, LINEAR) };
    drawing.exported(Some(info));
    assert_eq!(drawing.request(), DrawRequest::CopyContent { buffer: 5 });
    let mut copied = drawing;
    copied.copied(true);
    assert_eq!(copied.request(), DrawRequest::Finished(Some((5, Some(info)))));
    drawing.copied(false);
    assert_eq!(drawing.request(), DrawRequest::ImportContent { from_memory: true });
    drawing.imported(true);
    assert!(matches!(drawing.request(), DrawRequest::Paint { buffer: 5, .. }));
    drawing.painted(true);
    assert_eq!(drawing.request(), DrawRequest::Finished(Some((5, Some(info)))));

    for mut failing in [begin(false, true), begin(true, false)] {
        failing.created(Some(5));
        failing.exported(Some(info));
        failing.copied(false);
        assert_eq!(failing.request(), DrawRequest::Finished(None));
    }
    let mut unexported = begin(true, true);
    unexported.created(Some(5));
    unexported.exported(None);
    assert_eq!(unexported.request(), DrawRequest::Finished(None));
}
