//! What a compositor needs done for it.

use vstd::prelude::*;
use crate::buffer::{CachedDrmFramebuffer, FramebufferInfo, Slot, SyncPoint};
use crate::compositor::{OutputModeSource, PresentationMode};
use crate::element::{Color32F, ElementInfo, RenderElementState};
use crate::error::{DrmError, OutputDamageTrackerError};
use crate::frame_finish::{DamageReport, PlaneElement};
use crate::frame_state::SurfacePlaneState;
use crate::geometry::{Point, Rectangle, Size, Transform};
use crate::plane::SrcRect;
use crate::visibility::VisibleElement;

verus! {

/// What came of rendering.
pub struct RenderOutput {
    /// Whether anything changed.
    pub has_damage: bool,
    pub sync: SyncPoint,
    /// What became of each element, stand-ins for planes among them.
    pub states: Vec<(u64, RenderElementState)>,
}

/// Why rendering failed.
pub enum RenderFailure<R> {
    /// The buffer could not be rendered to.
    Bind(R),
    /// Rendering stopped halfway.
    Render(OutputDamageTrackerError<R>),
}

/// The device, the allocator, the exporter of framebuffers and the renderer of an output. Nothing
/// is assumed about what they answer. `A`, `B`, `F` and `R` are the errors of allocation, of the
/// export of buffers, of the export of framebuffers and of rendering.
pub trait Device<A, B, F, R> {
    /// A fence that is signaled already, if one can be made.
    fn signaled_fence(&mut self) -> Option<u64>;

    /// The name and the description of the driver.
    fn driver(&mut self) -> Result<(String, String), DrmError>;

    /// The capability of the driver for synchronization objects.
    fn syncobj_capability(&mut self) -> Result<u64, DrmError>;

    /// Whether a plane takes fences.
    fn takes_fences(&mut self, plane: u32) -> Result<bool, DrmError>;

    /// What the kernel module of the driver says of its version.
    fn driver_version(&mut self) -> Option<String>;

    /// Starts a new swapchain and puts the one before aside.
    fn open_swapchain(&mut self, size: Size, code: u32, modifiers: &Vec<u64>);

    /// Gives the new swapchain up for the one that was put aside.
    fn restore_swapchain(&mut self);

    /// Whether the session may use the device.
    fn is_active(&self) -> bool;

    /// Whether a modeset is due.
    fn commit_pending(&self) -> bool;

    fn claim_plane(&mut self, plane: u32) -> Option<u64>;

    fn test_state(&mut self, planes: &Vec<SurfacePlaneState>, allow_modeset: bool) -> Result<
        (),
        DrmError,
    >;

    fn commit(&mut self, planes: &Vec<SurfacePlaneState>, event: bool) -> Result<(), DrmError>;

    fn page_flip(&mut self, planes: &Vec<SurfacePlaneState>, event: bool, async_flip: bool) -> Result<
        PresentationMode,
        DrmError,
    >;

    /// Makes a native fence of a synchronization point, if it has one.
    fn export_fence(&mut self, point: SyncPoint) -> Option<u64>;

    /// Takes the legacy cursor off. An error carries the error number of the system.
    fn disable_cursor(&mut self) -> Result<(), Option<i32>>;

    fn install_cursor(&mut self, buffer: u64) -> Result<(), Option<i32>>;

    fn move_cursor(&mut self, origin: Point) -> Result<(), Option<i32>>;

    /// Takes a buffer out of the swapchain, if one is free.
    fn acquire(&mut self) -> Result<Option<Slot>, A>;

    /// Exports a buffer of the swapchain, and tells its extent.
    fn export_slot(&mut self, slot: Slot) -> Result<Size, B>;

    /// The framebuffer that was kept for a buffer of the swapchain.
    fn slot_framebuffer(&mut self, slot: Slot) -> Option<CachedDrmFramebuffer>;

    fn add_slot_framebuffer(&mut self, slot: Slot, use_opaque: bool) -> Result<
        Option<FramebufferInfo>,
        F,
    >;

    fn keep_slot_framebuffer(&mut self, slot: Slot, fb: CachedDrmFramebuffer);

    /// Notes that a buffer of the swapchain goes to the screen.
    fn slot_submitted(&mut self, slot: Slot);

    fn reset_buffers(&mut self);

    /// Makes the buffers of the swapchain have the extent of a new mode.
    fn resize_swapchain(&mut self, size: Size);

    /// Has a mode used from the next commit on. Modes are known by numbers.
    fn use_mode(&mut self, mode: u64) -> Result<(), DrmError>;

    /// Reads the state of the hardware anew.
    fn reset_state(&mut self) -> Result<(), DrmError>;

    /// Turns the output off.
    fn clear(&mut self) -> Result<(), DrmError>;

    /// Forgets all damage and takes the mode from another source.
    fn reset_damage(&mut self, output_mode_source: OutputModeSource);

    fn add_element_framebuffer(&mut self, element: &ElementInfo, allow_opaque_fallback: bool) -> Result<
        Option<FramebufferInfo>,
        (),
    >;

    /// Whether the element changed since a commit, and the damage clips made of that.
    fn element_damage(
        &mut self,
        element: &ElementInfo,
        since: Option<u64>,
        src: SrcRect,
        geometry: Rectangle,
        transform: Transform,
    ) -> (bool, Option<u64>);

    /// The client buffers that still exist.
    fn alive_buffers(&mut self) -> Vec<u64>;

    fn has_cursor_renderer(&mut self) -> bool;

    /// Whether the software renderer can read the memory that the element is stored in.
    fn supports_cursor_memory(&mut self, element: &ElementInfo) -> bool;

    fn create_cursor_buffer(&mut self, size: Size, code: u32, modifier: u64) -> Option<u64>;

    fn add_cursor_framebuffer(&mut self, buffer: u64) -> Option<FramebufferInfo>;

    fn copy_cursor(&mut self, element: &ElementInfo, buffer: u64) -> bool;

    fn import_cursor(&mut self, element: &ElementInfo, from_memory: bool) -> bool;

    fn paint_cursor(
        &mut self,
        element: &ElementInfo,
        buffer: u64,
        size: Size,
        transform: Transform,
    ) -> bool;

    /// An id that no element has.
    fn fresh_id(&mut self) -> u64;

    /// Renders the stand-ins for planes and, behind them, the elements.
    fn render(
        &mut self,
        slot: Slot,
        plane_elements: &Vec<PlaneElement>,
        elements: &Vec<usize>,
        visible: &Vec<VisibleElement>,
        clear_color: Color32F,
        debug_flags: u32,
    ) -> Result<RenderOutput, RenderFailure<R>>;

    /// Notes the damage of the primary plane, and makes damage clips of what was rendered.
    fn report_damage(
        &mut self,
        report: DamageReport,
        src: SrcRect,
        dst: Rectangle,
        output: Rectangle,
        transform: Transform,
    ) -> Option<u64>;

    /// Drops textures that are no longer in use.
    fn cleanup_textures(&mut self);
}

} // verus!
