//! A record of what a device is asked and what it answers.

use vstd::prelude::*;
use crate::buffer::{CachedDrmFramebuffer, FramebufferInfo, Slot, SyncPoint};
use crate::compositor::{OutputModeSource, PresentationMode};
use crate::element::{Color32F, ElementInfo};
use crate::error::DrmError;
use crate::frame_finish::{DamageReport, PlaneElement};
use crate::frame_state::SurfacePlaneState;
use crate::geometry::{Point, Rectangle, Size, Transform};
use crate::plane::SrcRect;
use crate::visibility::VisibleElement;
use crate::device::{Device, RenderFailure, RenderOutput};

verus! {

/// Something that a device was asked to do, with what was handed to it and what it answered.
#[allow(inconsistent_fields)]
pub enum Exchange<A, B, F, R> {
    SignaledFence { answer: Option<u64> },
    Driver { answer: Result<(String, String), DrmError> },
    SyncobjCapability { answer: Result<u64, DrmError> },
    TakesFences { plane: u32, answer: Result<bool, DrmError> },
    DriverVersion { answer: Option<String> },
    OpenSwapchain { size: Size, code: u32, modifiers: Seq<u64> },
    RestoreSwapchain,
    IsActive { answer: bool },
    CommitPending { answer: bool },
    ClaimPlane { plane: u32, answer: Option<u64> },
    TestState { planes: Seq<SurfacePlaneState>, allow_modeset: bool, answer: Result<(), DrmError> },
    Commit { planes: Seq<SurfacePlaneState>, event: bool, answer: Result<(), DrmError> },
    PageFlip {
        planes: Seq<SurfacePlaneState>,
        event: bool,
        async_flip: bool,
        answer: Result<PresentationMode, DrmError>,
    },
    ExportFence { point: SyncPoint, answer: Option<u64> },
    DisableCursor { answer: Result<(), Option<i32>> },
    InstallCursor { buffer: u64, answer: Result<(), Option<i32>> },
    MoveCursor { origin: Point, answer: Result<(), Option<i32>> },
    Acquire { answer: Result<Option<Slot>, A> },
    ExportSlot { slot: Slot, answer: Result<Size, B> },
    SlotFramebuffer { slot: Slot, answer: Option<CachedDrmFramebuffer> },
    AddSlotFramebuffer { slot: Slot, use_opaque: bool, answer: Result<Option<FramebufferInfo>, F> },
    KeepSlotFramebuffer { slot: Slot, fb: CachedDrmFramebuffer },
    SlotSubmitted { slot: Slot },
    ResetBuffers,
    ResizeSwapchain { size: Size },
    UseMode { mode: u64, answer: Result<(), DrmError> },
    ResetState { answer: Result<(), DrmError> },
    Clear { answer: Result<(), DrmError> },
    ResetDamage { output_mode_source: OutputModeSource },
    AddElementFramebuffer {
        element: ElementInfo,
        allow_opaque_fallback: bool,
        answer: Result<Option<FramebufferInfo>, ()>,
    },
    ElementDamage {
        element: ElementInfo,
        since: Option<u64>,
        src: SrcRect,
        geometry: Rectangle,
        transform: Transform,
        answer: (bool, Option<u64>),
    },
    AliveBuffers { answer: Vec<u64> },
    HasCursorRenderer { answer: bool },
    SupportsCursorMemory { element: ElementInfo, answer: bool },
    CreateCursorBuffer { size: Size, code: u32, modifier: u64, answer: Option<u64> },
    AddCursorFramebuffer { buffer: u64, answer: Option<FramebufferInfo> },
    CopyCursor { element: ElementInfo, buffer: u64, answer: bool },
    ImportCursor { element: ElementInfo, from_memory: bool, answer: bool },
    PaintCursor {
        element: ElementInfo,
        buffer: u64,
        size: Size,
        transform: Transform,
        answer: bool,
    },
    FreshId { answer: u64 },
    Render {
        slot: Slot,
        plane_elements: Seq<PlaneElement>,
        elements: Seq<usize>,
        visible: Seq<VisibleElement>,
        clear_color: Color32F,
        debug_flags: u32,
        answer: Result<RenderOutput, RenderFailure<R>>,
    },
    ReportDamage {
        report: DamageReport,
        src: SrcRect,
        dst: Rectangle,
        output: Rectangle,
        transform: Transform,
        answer: Option<u64>,
    },
    CleanupTextures,
}

/// A device together with everything that was exchanged with it so far. The record is written by
/// the methods below and by nothing else, so it tells which calls were made, in which order, and
/// with what outcome.
pub struct Recorded<A, B, F, R, D> {
    device: D,
    log: Ghost<Seq<Exchange<A, B, F, R>>>,
}

impl<A, B, F, R, D> Recorded<A, B, F, R, D> {
    /// Everything that was exchanged, in order.
    pub closed spec fn log(&self) -> Seq<Exchange<A, B, F, R>> {
        self.log@
    }

    /// The device itself.
    pub closed spec fn held(&self) -> D {
        self.device
    }
}

impl<A, B, F, R, D: Device<A, B, F, R>> Recorded<A, B, F, R, D> {
    pub fn new(device: D) -> (r: Recorded<A, B, F, R, D>)
        ensures
            r.held() == device,
            r.log().len() == 0,
    {
        Recorded { device, log: Ghost(Seq::empty()) }
    }

    /// The device, to look at.
    pub fn device(&self) -> (r: &D)
        ensures
            *r == self.held(),
    {
        &self.device
    }

    /// The device, once nothing more is to be recorded.
    pub fn into_device(self) -> (r: D)
        ensures
            r == self.held(),
    {
        self.device
    }

    pub fn signaled_fence(&mut self) -> (r: Option<u64>)
        ensures
            final(self).log() == old(self).log().push(Exchange::SignaledFence { answer: r }),
    {
        let r = self.device.signaled_fence();
        self.log = Ghost(self.log@.push(Exchange::SignaledFence { answer: r }));
        r
    }

    pub fn driver(&mut self) -> (r: Result<(String, String), DrmError>)
        ensures
            final(self).log() == old(self).log().push(Exchange::Driver { answer: r }),
    {
        let r = self.device.driver();
        self.log = Ghost(self.log@.push(Exchange::Driver { answer: r }));
        r
    }

    pub fn syncobj_capability(&mut self) -> (r: Result<u64, DrmError>)
        ensures
            final(self).log() == old(self).log().push(Exchange::SyncobjCapability { answer: r }),
    {
        let r = self.device.syncobj_capability();
        self.log = Ghost(self.log@.push(Exchange::SyncobjCapability { answer: r }));
        r
    }

    pub fn takes_fences(&mut self, plane: u32) -> (r: Result<bool, DrmError>)
        ensures
            final(self).log() == old(self).log().push(Exchange::TakesFences { plane, answer: r }),
    {
        let r = self.device.takes_fences(plane);
        self.log = Ghost(self.log@.push(Exchange::TakesFences { plane, answer: r }));
        r
    }

    pub fn driver_version(&mut self) -> (r: Option<String>)
        ensures
            final(self).log() == old(self).log().push(Exchange::DriverVersion { answer: r }),
    {
        let r = self.device.driver_version();
        self.log = Ghost(self.log@.push(Exchange::DriverVersion { answer: r }));
        r
    }

    pub fn open_swapchain(&mut self, size: Size, code: u32, modifiers: &Vec<u64>)
        ensures
            final(self).log() == old(self).log().push(
                Exchange::OpenSwapchain {
                    size,
                    code,
                    modifiers: modifiers@,
                },
            ),
    {
        self.device.open_swapchain(size, code, modifiers);
        self.log = Ghost(self.log@.push(
                Exchange::OpenSwapchain {
                    size,
                    code,
                    modifiers: modifiers@,
                },
            ));
    }

    pub fn restore_swapchain(&mut self)
        ensures
            final(self).log() == old(self).log().push(Exchange::RestoreSwapchain),
    {
        self.device.restore_swapchain();
        self.log = Ghost(self.log@.push(Exchange::RestoreSwapchain));
    }

    pub fn is_active(&mut self) -> (r: bool)
        ensures
            final(self).log() == old(self).log().push(Exchange::IsActive { answer: r }),
    {
        let r = self.device.is_active();
        self.log = Ghost(self.log@.push(Exchange::IsActive { answer: r }));
        r
    }

    pub fn commit_pending(&mut self) -> (r: bool)
        ensures
            final(self).log() == old(self).log().push(Exchange::CommitPending { answer: r }),
    {
        let r = self.device.commit_pending();
        self.log = Ghost(self.log@.push(Exchange::CommitPending { answer: r }));
        r
    }

    pub fn claim_plane(&mut self, plane: u32) -> (r: Option<u64>)
        ensures
            final(self).log() == old(self).log().push(Exchange::ClaimPlane { plane, answer: r }),
    {
        let r = self.device.claim_plane(plane);
        self.log = Ghost(self.log@.push(Exchange::ClaimPlane { plane, answer: r }));
        r
    }

    pub fn test_state(
        &mut self,
        planes: &Vec<SurfacePlaneState>,
        allow_modeset: bool,
    ) -> (r: Result<(), DrmError>)
        ensures
            final(self).log() == old(self).log().push(
                Exchange::TestState {
                    planes: planes@,
                    allow_modeset,
                    answer: r,
                },
            ),
    {
        let r = self.device.test_state(planes, allow_modeset);
        self.log = Ghost(self.log@.push(
                Exchange::TestState {
                    planes: planes@,
                    allow_modeset,
                    answer: r,
                },
            ));
        r
    }

    pub fn commit(
        &mut self,
        planes: &Vec<SurfacePlaneState>,
        event: bool,
    ) -> (r: Result<(), DrmError>)
        ensures
            final(self).log() == old(self).log().push(
                Exchange::Commit {
                    planes: planes@,
                    event,
                    answer: r,
                },
            ),
    {
        let r = self.device.commit(planes, event);
        self.log = Ghost(self.log@.push(
                Exchange::Commit {
                    planes: planes@,
                    event,
                    answer: r,
                },
            ));
        r
    }

    pub fn page_flip(
        &mut self,
        planes: &Vec<SurfacePlaneState>,
        event: bool,
        async_flip: bool,
    ) -> (r: Result<PresentationMode, DrmError>)
        ensures
            final(self).log() == old(self).log().push(
                Exchange::PageFlip {
                    planes: planes@,
                    event,
                    async_flip,
                    answer: r,
                },
            ),
    {
        let r = self.device.page_flip(planes, event, async_flip);
        self.log = Ghost(self.log@.push(
                Exchange::PageFlip {
                    planes: planes@,
                    event,
                    async_flip,
                    answer: r,
                },
            ));
        r
    }

    pub fn export_fence(&mut self, point: SyncPoint) -> (r: Option<u64>)
        ensures
            final(self).log() == old(self).log().push(Exchange::ExportFence { point, answer: r }),
    {
        let r = self.device.export_fence(point);
        self.log = Ghost(self.log@.push(Exchange::ExportFence { point, answer: r }));
        r
    }

    pub fn disable_cursor(&mut self) -> (r: Result<(), Option<i32>>)
        ensures
            final(self).log() == old(self).log().push(Exchange::DisableCursor { answer: r }),
    {
        let r = self.device.disable_cursor();
        self.log = Ghost(self.log@.push(Exchange::DisableCursor { answer: r }));
        r
    }

    pub fn install_cursor(&mut self, buffer: u64) -> (r: Result<(), Option<i32>>)
        ensures
            final(self).log() == old(self).log().push(Exchange::InstallCursor { buffer, answer: r }),
    {
        let r = self.device.install_cursor(buffer);
        self.log = Ghost(self.log@.push(Exchange::InstallCursor { buffer, answer: r }));
        r
    }

    pub fn move_cursor(&mut self, origin: Point) -> (r: Result<(), Option<i32>>)
        ensures
            final(self).log() == old(self).log().push(Exchange::MoveCursor { origin, answer: r }),
    {
        let r = self.device.move_cursor(origin);
        self.log = Ghost(self.log@.push(Exchange::MoveCursor { origin, answer: r }));
        r
    }

    pub fn acquire(&mut self) -> (r: Result<Option<Slot>, A>)
        ensures
            final(self).log() == old(self).log().push(Exchange::Acquire { answer: r }),
    {
        let r = self.device.acquire();
        self.log = Ghost(self.log@.push(Exchange::Acquire { answer: r }));
        r
    }

    pub fn export_slot(&mut self, slot: Slot) -> (r: Result<Size, B>)
        ensures
            final(self).log() == old(self).log().push(Exchange::ExportSlot { slot, answer: r }),
    {
        let r = self.device.export_slot(slot);
        self.log = Ghost(self.log@.push(Exchange::ExportSlot { slot, answer: r }));
        r
    }

    pub fn slot_framebuffer(&mut self, slot: Slot) -> (r: Option<CachedDrmFramebuffer>)
        ensures
            final(self).log() == old(self).log().push(Exchange::SlotFramebuffer { slot, answer: r }),
    {
        let r = self.device.slot_framebuffer(slot);
        self.log = Ghost(self.log@.push(Exchange::SlotFramebuffer { slot, answer: r }));
        r
    }

    pub fn add_slot_framebuffer(
        &mut self,
        slot: Slot,
        use_opaque: bool,
    ) -> (r: Result<Option<FramebufferInfo>, F>)
        ensures
            final(self).log() == old(self).log().push(
                Exchange::AddSlotFramebuffer {
                    slot,
                    use_opaque,
                    answer: r,
                },
            ),
    {
        let r = self.device.add_slot_framebuffer(slot, use_opaque);
        self.log = Ghost(self.log@.push(
                Exchange::AddSlotFramebuffer {
                    slot,
                    use_opaque,
                    answer: r,
                },
            ));
        r
    }

    pub fn keep_slot_framebuffer(&mut self, slot: Slot, fb: CachedDrmFramebuffer)
        ensures
            final(self).log() == old(self).log().push(Exchange::KeepSlotFramebuffer { slot, fb }),
    {
        self.device.keep_slot_framebuffer(slot, fb);
        self.log = Ghost(self.log@.push(Exchange::KeepSlotFramebuffer { slot, fb }));
    }

    pub fn slot_submitted(&mut self, slot: Slot)
        ensures
            final(self).log() == old(self).log().push(Exchange::SlotSubmitted { slot }),
    {
        self.device.slot_submitted(slot);
        self.log = Ghost(self.log@.push(Exchange::SlotSubmitted { slot }));
    }

    pub fn reset_buffers(&mut self)
        ensures
            final(self).log() == old(self).log().push(Exchange::ResetBuffers),
    {
        self.device.reset_buffers();
        self.log = Ghost(self.log@.push(Exchange::ResetBuffers));
    }

    pub fn resize_swapchain(&mut self, size: Size)
        ensures
            final(self).log() == old(self).log().push(Exchange::ResizeSwapchain { size }),
    {
        self.device.resize_swapchain(size);
        self.log = Ghost(self.log@.push(Exchange::ResizeSwapchain { size }));
    }

    pub fn use_mode(&mut self, mode: u64) -> (r: Result<(), DrmError>)
        ensures
            final(self).log() == old(self).log().push(Exchange::UseMode { mode, answer: r }),
    {
        let r = self.device.use_mode(mode);
        self.log = Ghost(self.log@.push(Exchange::UseMode { mode, answer: r }));
        r
    }

    pub fn reset_state(&mut self) -> (r: Result<(), DrmError>)
        ensures
            final(self).log() == old(self).log().push(Exchange::ResetState { answer: r }),
    {
        let r = self.device.reset_state();
        self.log = Ghost(self.log@.push(Exchange::ResetState { answer: r }));
        r
    }

    pub fn clear(&mut self) -> (r: Result<(), DrmError>)
        ensures
            final(self).log() == old(self).log().push(Exchange::Clear { answer: r }),
    {
        let r = self.device.clear();
        self.log = Ghost(self.log@.push(Exchange::Clear { answer: r }));
        r
    }

    pub fn reset_damage(&mut self, output_mode_source: OutputModeSource)
        ensures
            final(self).log() == old(self).log().push(Exchange::ResetDamage { output_mode_source }),
    {
        self.device.reset_damage(output_mode_source);
        self.log = Ghost(self.log@.push(Exchange::ResetDamage { output_mode_source }));
    }

    pub fn add_element_framebuffer(
        &mut self,
        element: &ElementInfo,
        allow_opaque_fallback: bool,
    ) -> (r: Result<Option<FramebufferInfo>, ()>)
        ensures
            final(self).log() == old(self).log().push(
                Exchange::AddElementFramebuffer {
                    element: *element,
                    allow_opaque_fallback,
                    answer: r,
                },
            ),
    {
        let r = self.device.add_element_framebuffer(element, allow_opaque_fallback);
        self.log = Ghost(self.log@.push(
                Exchange::AddElementFramebuffer {
                    element: *element,
                    allow_opaque_fallback,
                    answer: r,
                },
            ));
        r
    }

    pub fn element_damage(
        &mut self,
        element: &ElementInfo,
        since: Option<u64>,
        src: SrcRect,
        geometry: Rectangle,
        transform: Transform,
    ) -> (r: (bool, Option<u64>))
        ensures
            final(self).log() == old(self).log().push(
                Exchange::ElementDamage {
                    element: *element,
                    since,
                    src,
                    geometry,
                    transform,
                    answer: r,
                },
            ),
    {
        let r = self.device.element_damage(element, since, src, geometry, transform);
        self.log = Ghost(self.log@.push(
                Exchange::ElementDamage {
                    element: *element,
                    since,
                    src,
                    geometry,
                    transform,
                    answer: r,
                },
            ));
        r
    }

    pub fn alive_buffers(&mut self) -> (r: Vec<u64>)
        ensures
            final(self).log() == old(self).log().push(Exchange::AliveBuffers { answer: r }),
    {
        let r = self.device.alive_buffers();
        self.log = Ghost(self.log@.push(Exchange::AliveBuffers { answer: r }));
        r
    }

    pub fn has_cursor_renderer(&mut self) -> (r: bool)
        ensures
            final(self).log() == old(self).log().push(Exchange::HasCursorRenderer { answer: r }),
    {
        let r = self.device.has_cursor_renderer();
        self.log = Ghost(self.log@.push(Exchange::HasCursorRenderer { answer: r }));
        r
    }

    pub fn supports_cursor_memory(&mut self, element: &ElementInfo) -> (r: bool)
        ensures
            final(self).log() == old(self).log().push(
                Exchange::SupportsCursorMemory {
                    element: *element,
                    answer: r,
                },
            ),
    {
        let r = self.device.supports_cursor_memory(element);
        self.log = Ghost(self.log@.push(
                Exchange::SupportsCursorMemory {
                    element: *element,
                    answer: r,
                },
            ));
        r
    }

    pub fn create_cursor_buffer(&mut self, size: Size, code: u32, modifier: u64) -> (r: Option<u64>)
        ensures
            final(self).log() == old(self).log().push(
                Exchange::CreateCursorBuffer {
                    size,
                    code,
                    modifier,
                    answer: r,
                },
            ),
    {
        let r = self.device.create_cursor_buffer(size, code, modifier);
        self.log = Ghost(self.log@.push(
                Exchange::CreateCursorBuffer {
                    size,
                    code,
                    modifier,
                    answer: r,
                },
            ));
        r
    }

    pub fn add_cursor_framebuffer(&mut self, buffer: u64) -> (r: Option<FramebufferInfo>)
        ensures
            final(self).log() == old(self).log().push(
                Exchange::AddCursorFramebuffer {
                    buffer,
                    answer: r,
                },
            ),
    {
        let r = self.device.add_cursor_framebuffer(buffer);
        self.log = Ghost(self.log@.push(
                Exchange::AddCursorFramebuffer {
                    buffer,
                    answer: r,
                },
            ));
        r
    }

    pub fn copy_cursor(&mut self, element: &ElementInfo, buffer: u64) -> (r: bool)
        ensures
            final(self).log() == old(self).log().push(
                Exchange::CopyCursor {
                    element: *element,
                    buffer,
                    answer: r,
                },
            ),
    {
        let r = self.device.copy_cursor(element, buffer);
        self.log = Ghost(self.log@.push(
                Exchange::CopyCursor {
                    element: *element,
                    buffer,
                    answer: r,
                },
            ));
        r
    }

    pub fn import_cursor(&mut self, element: &ElementInfo, from_memory: bool) -> (r: bool)
        ensures
            final(self).log() == old(self).log().push(
                Exchange::ImportCursor {
                    element: *element,
                    from_memory,
                    answer: r,
                },
            ),
    {
        let r = self.device.import_cursor(element, from_memory);
        self.log = Ghost(self.log@.push(
                Exchange::ImportCursor {
                    element: *element,
                    from_memory,
                    answer: r,
                },
            ));
        r
    }

    pub fn paint_cursor(
        &mut self,
        element: &ElementInfo,
        buffer: u64,
        size: Size,
        transform: Transform,
    ) -> (r: bool)
        ensures
            final(self).log() == old(self).log().push(
                Exchange::PaintCursor {
                    element: *element,
                    buffer,
                    size,
                    transform,
                    answer: r,
                },
            ),
    {
        let r = self.device.paint_cursor(element, buffer, size, transform);
        self.log = Ghost(self.log@.push(
                Exchange::PaintCursor {
                    element: *element,
                    buffer,
                    size,
                    transform,
                    answer: r,
                },
            ));
        r
    }

    pub fn fresh_id(&mut self) -> (r: u64)
        ensures
            final(self).log() == old(self).log().push(Exchange::FreshId { answer: r }),
    {
        let r = self.device.fresh_id();
        self.log = Ghost(self.log@.push(Exchange::FreshId { answer: r }));
        r
    }

    pub fn render(
        &mut self,
        slot: Slot,
        plane_elements: &Vec<PlaneElement>,
        elements: &Vec<usize>,
        visible: &Vec<VisibleElement>,
        clear_color: Color32F,
        debug_flags: u32,
    ) -> (r: Result<RenderOutput, RenderFailure<R>>)
        ensures
            final(self).log() == old(self).log().push(
                Exchange::Render {
                    slot,
                    plane_elements: plane_elements@,
                    elements: elements@,
                    visible: visible@,
                    clear_color,
                    debug_flags,
                    answer: r,
                },
            ),
    {
        let r = self.device.render(slot, plane_elements, elements, visible, clear_color, debug_flags);
        self.log = Ghost(self.log@.push(
                Exchange::Render {
                    slot,
                    plane_elements: plane_elements@,
                    elements: elements@,
                    visible: visible@,
                    clear_color,
                    debug_flags,
                    answer: r,
                },
            ));
        r
    }

    pub fn report_damage(
        &mut self,
        report: DamageReport,
        src: SrcRect,
        dst: Rectangle,
        output: Rectangle,
        transform: Transform,
    ) -> (r: Option<u64>)
        ensures
            final(self).log() == old(self).log().push(
                Exchange::ReportDamage {
                    report,
                    src,
                    dst,
                    output,
                    transform,
                    answer: r,
                },
            ),
    {
        let r = self.device.report_damage(report, src, dst, output, transform);
        self.log = Ghost(self.log@.push(
                Exchange::ReportDamage {
                    report,
                    src,
                    dst,
                    output,
                    transform,
                    answer: r,
                },
            ));
        r
    }

    pub fn cleanup_textures(&mut self)
        ensures
            final(self).log() == old(self).log().push(Exchange::CleanupTextures),
    {
        self.device.cleanup_textures();
        self.log = Ghost(self.log@.push(Exchange::CleanupTextures));
    }
}

/// What was exchanged after some point.
pub open spec fn since<A, B, F, R>(
    before: Seq<Exchange<A, B, F, R>>,
    after: Seq<Exchange<A, B, F, R>>,
) -> Seq<Exchange<A, B, F, R>> {
    after.skip(before.len() as int)
}

/// Whether a record goes on from another one.
pub open spec fn goes_on<A, B, F, R>(
    before: Seq<Exchange<A, B, F, R>>,
    after: Seq<Exchange<A, B, F, R>>,
) -> bool {
    before.is_prefix_of(after)
}

/// What follows a record is what was exchanged since.
pub proof fn record_is_what_was_said<A, B, F, R>(
    before: Seq<Exchange<A, B, F, R>>,
    talk: Seq<Exchange<A, B, F, R>>,
)
    ensures
        goes_on(before, before + talk),
        since(before, before + talk) == talk,
{
    assert(since(before, before + talk) =~= talk);
}

/// What was exchanged in two stretches is the one followed by the other.
pub proof fn records_add_up<A, B, F, R>(
    a: Seq<Exchange<A, B, F, R>>,
    b: Seq<Exchange<A, B, F, R>>,
    c: Seq<Exchange<A, B, F, R>>,
)
    requires
        goes_on(a, b),
        goes_on(b, c),
    ensures
        goes_on(a, c),
        since(a, c) == since(a, b) + since(b, c),
{
    assert(since(a, c) =~= since(a, b) + since(b, c));
}

} // verus!
