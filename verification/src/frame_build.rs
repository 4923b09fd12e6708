//! The making of a frame: finding out how each visible element is shown.

use vstd::prelude::*;
use crate::assignment::{overlaps_underlay, overlaps_underlay_spec};
use crate::attempt::{begun, cursor_fits, element_fits, Attempt, ElementContext};
use crate::buffer::{CachedDrmFramebuffer, DrmScanoutBuffer, ScanoutBuffer, Slot};
use crate::core_state::{Core, CoreView};
use crate::effects::{below_effect, below_framebuffer_effect, collect_framebuffer_effect_regions, effect_regions_spec};
use crate::element::{Color32F, Element, Kind, OutputState, RenderElementState, RenderingReason};
use crate::flags::FrameFlags;
use crate::float::F32;
use crate::frame_state::{idle_entries, with_planes, with_resets, with_state, FrameState};
use crate::geometry::{Rectangle, Size, Transform};
use crate::legacy_attempt::{legacy_fits, LegacyAttempt};
use crate::legacy_cursor::{LegacyCursorAssignment, LegacyCursorPresentation};
use crate::overlay_map::{inserted, OverlayElements};
use crate::plane::{PlaneAssignment, PlaneConfig, PlaneProperties, PlaneState, PlaneType, SrcRect};
use crate::region::area;
use crate::render_states::{areas_within, with_reason, with_zero_copy, RenderElementStates};
use crate::visibility::{
    all_sighted, find_visible, on_output, placeable, searchable, visible_rectangles_can_be_turned,
    VisibleElement,
};

verus! {

/// The planes of a frame before anything is put on them: idle, but for those to be taken off.
pub open spec fn fresh_frame(core: CoreView, previous: Seq<(u32, PlaneState)>) -> Seq<
    (u32, PlaneState),
> {
    with_resets(
        seq![(core.primary.handle, PlaneState::idle())] + (if core.policy.reserves_spec() {
            Seq::empty()
        } else {
            idle_entries(core.planes.cursor@)
        }) + idle_entries(core.planes.overlay@),
        previous,
    )
}

/// The state of a primary plane that shows a buffer of the swapchain.
pub open spec fn swapchain_state(
    slot: Slot,
    fb: CachedDrmFramebuffer,
    buffer_size: Size,
    mode_size: Size,
    plane_claim: u64,
) -> PlaneState {
    PlaneState {
        skip: false,
        needs_test: false,
        element_state: None,
        config: Some(
            PlaneConfig {
                properties: PlaneProperties {
                    src: SrcRect::whole_spec(buffer_size),
                    dst: Rectangle::from_size_spec(mode_size),
                    transform: Transform::Normal,
                    alpha: F32::one_spec(),
                    format: slot.format,
                },
                buffer: DrmScanoutBuffer { buffer: ScanoutBuffer::Swapchain(slot), fb },
                damage_clips: None,
                plane_claim,
                sync: None,
            },
        ),
    }
}

pub fn primary_swapchain_state(
    slot: Slot,
    fb: CachedDrmFramebuffer,
    buffer_size: Size,
    mode_size: Size,
    plane_claim: u64,
) -> (r: PlaneState)
    ensures
        r == swapchain_state(slot, fb, buffer_size, mode_size, plane_claim),
{
    PlaneState {
        skip: false,
        needs_test: false,
        element_state: None,
        config: Some(
            PlaneConfig {
                properties: PlaneProperties {
                    src: SrcRect::whole(buffer_size),
                    dst: Rectangle::from_size(mode_size),
                    transform: Transform::Normal,
                    alpha: F32::one(),
                    format: slot.format,
                },
                buffer: DrmScanoutBuffer { buffer: ScanoutBuffer::Swapchain(slot), fb },
                damage_clips: None,
                plane_claim,
                sync: None,
            },
        ),
    }
}


/// The only cursor element, if there is exactly one.
pub open spec fn is_only_cursor(visible: Seq<VisibleElement>, index: int) -> bool {
    0 <= index < visible.len() && visible[index].info.kind == Kind::Cursor && forall|j: int|
        0 <= j < visible.len() && j != index ==> (#[trigger] visible[j]).info.kind != Kind::Cursor
}

/// The position of the only cursor element.
pub fn only_cursor(visible: &Vec<VisibleElement>) -> (r: Option<usize>)
    ensures
        r matches Some(i) ==> is_only_cursor(visible@, i as int),
        r is None ==> forall|i: int| !is_only_cursor(visible@, i),
{
    let mut found: Option<usize> = None;
    let mut i: usize = 0;
    while i < visible.len()
        invariant
            i <= visible.len(),
            found matches Some(k) ==> k < i && visible@[k as int].info.kind == Kind::Cursor
                && forall|j: int|
                0 <= j < i && j != k ==> (#[trigger] visible@[j]).info.kind != Kind::Cursor,
            found is None ==> forall|j: int|
                0 <= j < i ==> (#[trigger] visible@[j]).info.kind != Kind::Cursor,
        decreases visible.len() - i,
    {
        if visible[i].info.kind == Kind::Cursor {
            if let Some(k) = found {
                assert forall|n: int| !is_only_cursor(visible@, n) by {
                    assert(visible@[k as int].info.kind == Kind::Cursor);
                    assert(visible@[i as int].info.kind == Kind::Cursor);
                }
                return None;
            }
            found = Some(i);
        }
        i = i + 1;
    }
    if found.is_none() {
        assert forall|n: int| !is_only_cursor(visible@, n) by {}
    }
    found
}

/// The position of the first element with an id.
pub open spec fn is_first_with_id(visible: Seq<VisibleElement>, id: u64, index: int) -> bool {
    0 <= index < visible.len() && visible[index].info.id == id && forall|j: int|
        0 <= j < index ==> (#[trigger] visible[j]).info.id != id
}

pub fn first_with_id(visible: &Vec<VisibleElement>, id: u64) -> (r: Option<usize>)
    ensures
        r matches Some(i) ==> is_first_with_id(visible@, id, i as int),
        r is None ==> forall|j: int|
            0 <= j < visible@.len() ==> (#[trigger] visible@[j]).info.id != id,
{
    let mut i: usize = 0;
    while i < visible.len()
        invariant
            i <= visible.len(),
            forall|j: int| 0 <= j < i ==> (#[trigger] visible@[j]).info.id != id,
        decreases visible.len() - i,
    {
        if visible[i].info.id == id {
            return Some(i);
        }
        i = i + 1;
    }
    None
}

/// A frame in the making.
pub struct FrameRender {
    pub output: OutputState,
    pub flags: FrameFlags,
    /// Whether planes that did not change may be left out of the update.
    pub allow_partial_update: bool,
    pub frame: FrameState,
    /// The primary plane as it is when everything is rendered.
    pub primary_state: PlaneState,
    /// The visible elements, front to back. All other fields name elements by their place here.
    pub visible: Vec<VisibleElement>,
    pub states: RenderElementStates,
    pub clear_color: Color32F,
    pub effect_regions: Vec<(usize, Rectangle)>,
    /// The legacy cursor has to be taken off before anything else.
    pub disable_pending: bool,
    pub legacy_index: Option<usize>,
    pub legacy_cursor: Option<LegacyCursorPresentation>,
    /// The legacy cursor was tried for the current element and did not work out.
    pub legacy_tried: bool,
    /// The element that is looked at.
    pub index: usize,
    /// The elements that are rendered.
    pub primary_plane_elements: Vec<usize>,
    pub primary_scanout: Option<usize>,
    pub overlay_elements: OverlayElements,
    pub cursor_element: Option<usize>,
}

/// The contents of a [`FrameRender`].
#[verifier::ext_equal]
pub struct FrameView {
    pub output: OutputState,
    pub flags: FrameFlags,
    pub allow_partial_update: bool,
    pub frame: Seq<(u32, PlaneState)>,
    pub primary_state: PlaneState,
    pub visible: Seq<VisibleElement>,
    pub states: Map<u64, RenderElementState>,
    pub clear_color: Color32F,
    pub effect_regions: Seq<(usize, Rectangle)>,
    pub disable_pending: bool,
    pub legacy_index: Option<usize>,
    pub legacy_cursor: Option<LegacyCursorPresentation>,
    pub legacy_tried: bool,
    pub index: usize,
    pub primary_plane_elements: Seq<usize>,
    pub primary_scanout: Option<usize>,
    pub overlay_elements: Seq<(u32, usize)>,
    pub cursor_element: Option<usize>,
}

impl View for FrameRender {
    type V = FrameView;

    open spec fn view(&self) -> FrameView {
        FrameView {
            output: self.output,
            flags: self.flags,
            allow_partial_update: self.allow_partial_update,
            frame: self.frame@,
            primary_state: self.primary_state,
            visible: self.visible@,
            states: self.states@,
            clear_color: self.clear_color,
            effect_regions: self.effect_regions@,
            disable_pending: self.disable_pending,
            legacy_index: self.legacy_index,
            legacy_cursor: self.legacy_cursor,
            legacy_tried: self.legacy_tried,
            index: self.index,
            primary_plane_elements: self.primary_plane_elements@,
            primary_scanout: self.primary_scanout,
            overlay_elements: self.overlay_elements@,
            cursor_element: self.cursor_element,
        }
    }
}

/// What has to happen next to a frame in the making.
#[derive(Clone, Copy, Debug, PartialEq, Eq, Structural)]
pub enum FrameStep {
    /// Take the legacy cursor off.
    DisableLegacyCursor,
    /// The legacy cursor could not be taken off and goes on showing the element.
    KeepLegacyCursor,
    /// Try to show the element as the legacy cursor.
    TryLegacyCursor,
    /// Look for a plane for the element.
    AssignElement,
    /// All elements were looked at.
    TestFrame,
}

impl FrameView {
    pub open spec fn step(self) -> FrameStep {
        if self.disable_pending {
            FrameStep::DisableLegacyCursor
        } else if self.index >= self.visible.len() {
            FrameStep::TestFrame
        } else if self.legacy_index == Some(self.index) && !self.legacy_tried {
            if self.legacy_cursor.is_some() {
                FrameStep::KeepLegacyCursor
            } else {
                FrameStep::TryLegacyCursor
            }
        } else {
            FrameStep::AssignElement
        }
    }

    /// The element that is looked at.
    pub open spec fn current(self) -> VisibleElement {
        self.visible[self.index as int]
    }

    /// Whether an element that will be rendered overlaps the current one.
    pub open spec fn below_rendered(self) -> bool {
        exists|k: int|
            0 <= k < self.primary_plane_elements.len()
                && self.visible[#[trigger] self.primary_plane_elements[k] as int].info.geometry.overlaps_spec(
                self.current().info.geometry,
            )
    }

    /// Whether the primary plane could show the current element alone: it is the last one, nothing
    /// else is rendered, nothing on an underlay would be covered, and what lies beside it is what
    /// the device shows there anyway, or it hides the whole output.
    pub open spec fn may_use_primary(self, core: CoreView) -> bool {
        let element = self.current();
        &&& self.index + 1 == self.visible.len()
        &&& self.primary_plane_elements.len() == 0
        &&& !overlaps_underlay_spec(
            self.frame,
            core.primary,
            core.planes.overlay@,
            element.info.geometry,
        )
        &&& self.clear_color.is_black_or_clear_spec() || (element.info.geometry.contains_spec(
            self.output.geometry,
        ) && element.is_opaque)
    }

    /// The circumstances in which a plane is looked for.
    pub open spec fn context(self, core: CoreView) -> ElementContext {
        ElementContext {
            info: self.current().info,
            z_index: self.index,
            is_opaque: self.current().is_opaque,
            below_rendered: self.below_rendered(),
            below_effect: below_effect(
                self.index as int,
                self.current().info.geometry,
                self.effect_regions,
            ),
            try_primary: self.may_use_primary(core),
            flags: self.flags,
            output: self.output,
        }
    }

    /// Whether the frame can go on: every element can be placed, and no more pixels can be counted
    /// than there are numbers for.
    pub open spec fn wf(self, core: CoreView) -> bool {
        &&& core.wf()
        &&& self.index <= self.visible.len()
        &&& self.visible.len() <= usize::MAX
        &&& self.output_fits(core)
        &&& forall|k: int|
            0 <= k < self.primary_plane_elements.len() ==> (
            #[trigger] self.primary_plane_elements[k]) < self.visible.len()
        &&& 0 <= area(self.output.geometry)
        &&& areas_within(self.states, (self.index + 1) * area(self.output.geometry))
        &&& (self.visible.len() + 1) * area(self.output.geometry) <= usize::MAX
        &&& self.primary_scanout matches Some(i) ==> i < self.visible.len()
        &&& self.cursor_element matches Some(i) ==> i < self.visible.len()
        &&& forall|k: int|
            0 <= k < self.overlay_elements.len() ==> (#[trigger] self.overlay_elements[k]).1
                < self.visible.len()
        &&& self.legacy_cursor is None ==> (self.legacy_index matches Some(i) ==> i
            < self.visible.len() && self.visible[i as int].info.kind == Kind::Cursor)
    }

    /// Whether an element takes part in an effect: it is one, or it lies below one that overlaps it.
    pub open spec fn in_effect(self, i: int) -> bool {
        self.visible[i].info.is_framebuffer_effect || below_effect(
            i,
            self.visible[i].info.geometry,
            self.effect_regions,
        )
    }

    pub open spec fn output_fits(self, core: CoreView) -> bool {
        forall|i: int|
            0 <= i < self.visible.len() ==> {
                &&& (#[trigger] self.visible[i]).info.comparable()
                &&& element_fits(self.visible[i].info, self.output, core)
                &&& legacy_fits(self.visible[i].info, self.output, core.cursor_size)
                &&& self.visible[i].visible_area <= area(self.output.geometry)
            }
    }

    /// The frame once the current element is shown without rendering.
    pub open spec fn shown(self) -> FrameView {
        FrameView {
            states: with_zero_copy(
                self.states,
                self.current().info.id,
                self.current().visible_area,
            ),
            index: (self.index + 1) as usize,
            legacy_tried: false,
            ..self
        }
    }

    /// The frame once the search for a plane for the current element is over.
    pub open spec fn after_element(
        self,
        result: Result<PlaneAssignment, Option<RenderingReason>>,
    ) -> FrameView {
        match result {
            Ok(plane) => match plane.type_ {
                PlaneType::Overlay => FrameView {
                    overlay_elements: inserted(self.overlay_elements, plane.handle, self.index),
                    ..self.shown()
                },
                PlaneType::Primary => FrameView {
                    primary_scanout: Some(self.index),
                    ..self.shown()
                },
                PlaneType::Cursor => FrameView {
                    cursor_element: Some(self.index),
                    ..self.shown()
                },
            },
            Err(reason) => FrameView {
                states: with_reason(self.states, self.current().info.id, reason),
                primary_plane_elements: self.primary_plane_elements.push(self.index),
                index: (self.index + 1) as usize,
                legacy_tried: false,
                ..self
            },
        }
    }

    /// The frame once the attempt at the legacy cursor is over.
    pub open spec fn after_legacy(
        self,
        core: CoreView,
        assignment: LegacyCursorAssignment,
    ) -> FrameView {
        match assignment {
            LegacyCursorAssignment::Presented(presentation) => FrameView {
                legacy_cursor: Some(presentation),
                ..self.shown()
            },
            LegacyCursorAssignment::Atomic => FrameView {
                frame: with_planes(self.frame, core.planes.cursor@),
                legacy_tried: true,
                ..self
            },
            LegacyCursorAssignment::Software => FrameView { legacy_tried: true, ..self },
        }
    }
}

/// Whether a frame in the making goes on after the legacy cursor was to be taken off. One that could
/// not be taken off goes on showing its element, which is rendered too if it takes part in an effect.
pub open spec fn is_disabled(
    view: FrameView,
    core: CoreView,
    succeeded: bool,
    after: FrameView,
    after_core: CoreView,
) -> bool {
    &&& after_core == (CoreView {
        cursor: Some(
            crate::assignment::CursorState {
                legacy: core.cursor->0.legacy.after_disable(succeeded),
                ..core.cursor->0
            },
        ),
        ..core
    })
    &&& after == (FrameView {
        disable_pending: false,
        legacy_cursor: after.legacy_cursor,
        legacy_index: after.legacy_index,
        ..view
    })
    &&& after.legacy_cursor == (if succeeded {
        None
    } else {
        core.cursor->0.legacy.active_presentation_spec()
    })
    &&& match after.legacy_cursor {
        None => after.legacy_index is None,
        Some(presentation) => match after.legacy_index {
            Some(i) => is_first_with_id(view.visible, presentation.element_id, i as int)
                && !view.in_effect(i as int),
            None => forall|j: int| #[trigger]
                is_first_with_id(view.visible, presentation.element_id, j) ==> view.in_effect(j),
        },
    }
}

/// Whether elements can be placed depends on the planes and the size of the cursor alone.
proof fn lemma_still_fits(view: FrameView, a: CoreView, b: CoreView)
    requires
        view.output_fits(a),
        b.planes == a.planes,
        b.cursor_size == a.cursor_size,
    ensures
        view.output_fits(b),
{
    assert forall|i: int| 0 <= i < view.visible.len() implies {
        &&& (#[trigger] view.visible[i]).info.comparable()
        &&& element_fits(view.visible[i].info, view.output, b)
        &&& legacy_fits(view.visible[i].info, view.output, b.cursor_size)
        &&& view.visible[i].visible_area <= area(view.output.geometry)
    } by {
        assert(element_fits(view.visible[i].info, view.output, a));
        assert(cursor_fits(view.visible[i].info, view.output, b));
    }
}

proof fn lemma_next_area(index: int, len: int, pixels: int)
    requires
        0 <= index < len,
        0 <= pixels,
    ensures
        (index + 1) * pixels + pixels == (index + 2) * pixels,
        (index + 1) * pixels <= (index + 2) * pixels,
        (index + 2) * pixels <= (len + 1) * pixels,
{
    assert((index + 1) * pixels + pixels == (index + 2) * pixels) by (nonlinear_arith);
    assert((index + 2) * pixels <= (len + 1) * pixels) by (nonlinear_arith)
        requires
            index + 2 <= len + 1,
            0 <= pixels,
    ;
}

impl FrameRender {
    pub fn step(&self) -> (r: FrameStep)
        ensures
            r == self@.step(),
    {
        if self.disable_pending {
            return FrameStep::DisableLegacyCursor;
        }
        if self.index >= self.visible.len() {
            return FrameStep::TestFrame;
        }
        let at_legacy = match self.legacy_index {
            Some(i) => i == self.index,
            None => false,
        };
        if at_legacy && !self.legacy_tried {
            if self.legacy_cursor.is_some() {
                FrameStep::KeepLegacyCursor
            } else {
                FrameStep::TryLegacyCursor
            }
        } else {
            FrameStep::AssignElement
        }
    }

    /// Notes that the current element is shown without rendering, and goes on to the next.
    fn show(&mut self, Ghost(core): Ghost<CoreView>)
        requires
            old(self)@.wf(core),
            old(self)@.index < old(self)@.visible.len(),
        ensures
            final(self)@ == old(self)@.shown(),
            final(self)@.wf(core),
    {
        let element = self.visible[self.index];
        proof {
            let view = self@;
            let pixels = area(view.output.geometry);
            lemma_next_area(view.index as int, view.visible.len() as int, pixels);
            assert(view.visible[view.index as int].visible_area <= pixels);
            if view.states.contains_key(element.info.id) {
                assert(view.states[element.info.id].visible_area <= (view.index + 1) * pixels);
            }
        }
        self.states.show_directly(element.info.id, element.visible_area);
        self.index = self.index + 1;
        self.legacy_tried = false;
        proof {
            let pixels = area(self@.output.geometry);
            assert(areas_within(self@.states, (self@.index + 1) * pixels)) by {
                assert forall|id: u64| self@.states.contains_key(id) implies (
                #[trigger] self@.states[id]).visible_area <= (self@.index + 1) * pixels by {
                    if id != element.info.id {
                        assert(old(self)@.states.contains_key(id));
                        assert(old(self)@.states[id].visible_area <= (old(self)@.index + 1)
                            * pixels);
                    }
                }
            }
            assert(self@ =~= old(self)@.shown());
        }
    }

    /// Whether an element takes part in an effect.
    fn is_in_effect(&self, i: usize) -> (r: bool)
        requires
            i < self@.visible.len(),
        ensures
            r == self@.in_effect(i as int),
    {
        let info = self.visible[i].info;
        info.is_framebuffer_effect || below_framebuffer_effect(
            i,
            info.geometry,
            self.effect_regions.as_slice(),
        )
    }

    /// Goes on after the legacy cursor was to be taken off. One that could not be taken off goes
    /// on showing its element, which is rendered too if it takes part in an effect.
    pub fn disabled(&mut self, core: &mut Core, succeeded: bool)
        requires
            old(self)@.wf(old(core)@),
            old(self)@.step() == FrameStep::DisableLegacyCursor,
            old(core)@.cursor.is_some(),
        ensures
            final(self)@.wf(final(core)@),
            is_disabled(old(self)@, old(core)@, succeeded, final(self)@, final(core)@),
    {
        self.disable_pending = false;
        self.legacy_cursor = None;
        self.legacy_index = None;
        if let Some(cursor) = &core.cursor {
            let mut updated = *cursor;
            let retained = updated.legacy.finish_disable(succeeded);
            core.cursor = Some(updated);
            self.legacy_cursor = retained;
            if let Some(presentation) = retained {
                if let Some(i) = first_with_id(&self.visible, presentation.element_id) {
                    if !self.is_in_effect(i) {
                        self.legacy_index = Some(i);
                    }
                }
            }
        }
        proof {
            lemma_still_fits(old(self)@, old(core)@, core@);
            assert(self@.output_fits(core@));
            assert(self@ =~= (FrameView {
                disable_pending: false,
                legacy_cursor: self@.legacy_cursor,
                legacy_index: self@.legacy_index,
                ..old(self)@
            }));
        }
    }

    /// Goes on with the legacy cursor showing the current element as before.
    pub fn keep_legacy_cursor(&mut self, core: &Core)
        requires
            old(self)@.wf(core@),
            old(self)@.step() == FrameStep::KeepLegacyCursor,
        ensures
            final(self)@.wf(core@),
            final(self)@ == old(self)@.shown(),
    {
        self.show(Ghost(core@));
    }

    /// Starts the attempt to show the current element as the legacy cursor.
    pub fn try_legacy_cursor(&self, core: &Core) -> (r: LegacyAttempt)
        requires
            self@.wf(core@),
            self@.step() == FrameStep::TryLegacyCursor,
        ensures
            r == LegacyAttempt::begin_spec(
                self@.current().info,
                self@.output,
                core@.cursor_size,
                match core@.cursor {
                    Some(cursor) => Some(cursor.legacy),
                    None => None,
                },
            ),
    {
        let legacy = match &core.cursor {
            Some(cursor) => Some(cursor.legacy),
            None => None,
        };
        assert(self@.visible[self.index as int] == self@.current());
        LegacyAttempt::begin(
            self.visible[self.index].info,
            self.output,
            core.cursor_size,
            legacy,
        )
    }

    /// Goes on after the attempt at the legacy cursor.
    pub fn legacy_done(&mut self, core: &Core, assignment: LegacyCursorAssignment)
        requires
            old(self)@.wf(core@),
            old(self)@.step() == FrameStep::TryLegacyCursor,
        ensures
            final(self)@.wf(core@),
            final(self)@ == old(self)@.after_legacy(core@, assignment),
    {
        match assignment {
            LegacyCursorAssignment::Presented(presentation) => {
                self.show(Ghost(core@));
                self.legacy_cursor = Some(presentation);
            },
            LegacyCursorAssignment::Atomic => {
                self.frame.add_cursor_planes(&core.planes);
                self.legacy_tried = true;
            },
            LegacyCursorAssignment::Software => {
                self.legacy_tried = true;
            },
        }
        assert(self@ =~= old(self)@.after_legacy(core@, assignment));
    }

    fn is_below_rendered(&self) -> (r: bool)
        requires
            self@.index < self@.visible.len(),
            forall|k: int|
                0 <= k < self@.primary_plane_elements.len() ==> (
                #[trigger] self@.primary_plane_elements[k]) < self@.visible.len(),
        ensures
            r == self@.below_rendered(),
    {
        let geometry = self.visible[self.index].info.geometry;
        let mut k: usize = 0;
        while k < self.primary_plane_elements.len()
            invariant
                k <= self.primary_plane_elements.len(),
                self@.index < self@.visible.len(),
                geometry == self@.current().info.geometry,
                forall|k: int|
                    0 <= k < self@.primary_plane_elements.len() ==> (
                    #[trigger] self@.primary_plane_elements[k]) < self@.visible.len(),
                forall|j: int|
                    0 <= j < k
                        ==> !self@.visible[#[trigger] self@.primary_plane_elements[j] as int].info.geometry.overlaps_spec(
                    geometry),
            decreases self.primary_plane_elements.len() - k,
        {
            let other: usize = self.primary_plane_elements[k];
            assert(self@.primary_plane_elements[k as int] == other);
            if self.visible[other].info.geometry.overlaps(geometry) {
                return true;
            }
            k = k + 1;
        }
        false
    }

    /// The circumstances in which a plane is looked for the current element.
    pub fn context(&self, core: &Core) -> (r: ElementContext)
        requires
            self@.wf(core@),
            self@.index < self@.visible.len(),
        ensures
            r == self@.context(core@),
    {
        let element = self.visible[self.index];
        let geometry = element.info.geometry;
        let try_primary = if self.visible.len() - self.index == 1
            && self.primary_plane_elements.len() == 0 {
            !overlaps_underlay(&self.frame, &core.primary, &core.planes.overlay, geometry) && (
            self.clear_color.is_black_or_clear() || (geometry.contains_rect(self.output.geometry)
                && element.is_opaque))
        } else {
            false
        };
        ElementContext {
            info: element.info,
            z_index: self.index,
            is_opaque: element.is_opaque,
            below_rendered: self.is_below_rendered(),
            below_effect: below_framebuffer_effect(
                self.index,
                geometry,
                self.effect_regions.as_slice(),
            ),
            try_primary,
            flags: self.flags,
            output: self.output,
        }
    }

    /// Starts the search for a plane for the current element.
    pub fn try_assign_element(&self, core: &mut Core, previous: &FrameState) -> (r: Attempt)
        requires
            self@.wf(old(core)@),
            self@.step() == FrameStep::AssignElement,
        ensures
            r.ctx == self@.context(old(core)@),
            r.wf(final(core)@),
            r.progress(final(core)@, self@.frame) == begun(
                old(core)@,
                self@.frame,
                self@.context(old(core)@),
                previous@,
            ),
    {
        let ctx = self.context(core);
        assert(self@.visible[self.index as int] == self@.current());
        Attempt::begin(ctx, core, &self.frame, previous)
    }

    /// Goes on after the search for a plane.
    pub fn element_done(
        &mut self,
        core: &Core,
        result: Result<PlaneAssignment, Option<RenderingReason>>,
    )
        requires
            old(self)@.wf(core@),
            old(self)@.step() == FrameStep::AssignElement,
        ensures
            final(self)@.wf(core@),
            final(self)@ == old(self)@.after_element(result),
    {
        let index: usize = self.index;
        match result {
            Ok(plane) => {
                self.show(Ghost(core@));
                match plane.type_ {
                    PlaneType::Overlay => self.overlay_elements.insert(plane.handle, index),
                    PlaneType::Primary => {
                        self.primary_scanout = Some(index);
                    },
                    PlaneType::Cursor => {
                        self.cursor_element = Some(index);
                    },
                }
            },
            Err(reason) => {
                let id: u64 = self.visible[index].info.id;
                self.states.give_reason(id, reason);
                self.primary_plane_elements.push(index);
                self.index = index + 1;
                self.legacy_tried = false;
                proof {
                    let pixels = area(self@.output.geometry);
                    lemma_next_area(index as int, self@.visible.len() as int, pixels);
                    assert(areas_within(self@.states, (self@.index + 1) * pixels)) by {
                        assert(0 <= (index + 1) * pixels) by (nonlinear_arith)
                            requires
                                0 <= index,
                                0 <= pixels,
                        ;
                        assert forall|i: u64| self@.states.contains_key(i) implies (
                        #[trigger] self@.states[i]).visible_area <= (self@.index + 1) * pixels by {
                            if old(self)@.states.contains_key(i) {
                                assert(old(self)@.states[i].visible_area <= (index + 1) * pixels);
                            }
                        }
                    }
                }
            },
        }
        proof {
            assert(self@ =~= old(self)@.after_element(result));
            lemma_inserted(old(self)@.overlay_elements, result, index, self@.visible.len() as int);
        }
    }
}

proof fn lemma_inserted(
    entries: Seq<(u32, usize)>,
    result: Result<PlaneAssignment, Option<RenderingReason>>,
    index: usize,
    len: int,
)
    requires
        forall|k: int| 0 <= k < entries.len() ==> (#[trigger] entries[k]).1 < len,
        index < len,
    ensures
        result matches Ok(plane) ==> forall|k: int|
            0 <= k < inserted(entries, plane.handle, index).len() ==> (#[trigger] inserted(
                entries,
                plane.handle,
                index,
            )[k]).1 < len,
{
    if let Ok(plane) = result {
        crate::overlay_map::key_index_is_first(entries, plane.handle);
        let after = inserted(entries, plane.handle, index);
        assert forall|k: int| 0 <= k < after.len() implies (#[trigger] after[k]).1 < len by {
            if k < entries.len() {
                assert(entries[k].1 < len);
            }
        }
    }
}

/// Whether a frame can be made of the elements: those on the output can be laid out, cursors can be
/// placed, and no more pixels can be counted than there are numbers for.
pub open spec fn composable(elements: Seq<Element>, output: OutputState, core: CoreView) -> bool {
    &&& core.wf()
    &&& searchable(output.geometry)
    &&& (elements.len() + 1) * area(output.geometry) <= usize::MAX
    &&& forall|i: int|
        0 <= i < elements.len() && on_output(#[trigger] elements[i], output.geometry) ==> {
            &&& placeable(elements[i])
            &&& elements[i].info.comparable()
            &&& cursor_fits(elements[i].info, output, core)
            &&& legacy_fits(elements[i].info, output, core.cursor_size)
        }
}

/// Whether the legacy cursor may show an element: it is the only cursor element and takes part in no
/// effect.
pub open spec fn legacy_candidate(view: FrameView, i: int) -> bool {
    is_only_cursor(view.visible, i) && !view.in_effect(i)
}

/// Which element the legacy cursor is to show, and whether it has to be taken off first: the only
/// cursor element where legacy cursors are allowed and the cursor planes reserved for them, unless
/// it takes part in an effect, and otherwise none, for which an active legacy cursor has to go.
pub open spec fn legacy_choice(view: FrameView, core: CoreView) -> bool {
    if view.flags.has_all(FrameFlags::ALLOW_LEGACY_CURSOR) && core.policy.reserves_spec()
        && exists|i: int| legacy_candidate(view, i) {
        view.legacy_index matches Some(i) && legacy_candidate(view, i as int)
            && !view.disable_pending
    } else {
        view.legacy_index is None && view.disable_pending == (core.cursor matches Some(cursor)
            && cursor.legacy.ownership is Active)
    }
}

impl FrameRender {
    /// Starts a frame: the element states of the last frame are put aside, the planes reset, and
    /// the visible elements found. The buffer for `effect_regions` is used again.
    pub fn begin(
        core: &Core,
        previous: &FrameState,
        elements: &Vec<Element>,
        output: OutputState,
        flags: FrameFlags,
        clear_color: Color32F,
        allow_partial_update: bool,
        primary_state: PlaneState,
        effect_regions: Vec<(usize, Rectangle)>,
    ) -> (r: FrameRender)
        requires
            composable(elements@, output, core@),
        ensures
            r@.wf(core@),
            r@.frame == with_state(
                fresh_frame(core@, previous@),
                core@.primary.handle,
                primary_state,
            ),
            r@.visible == all_sighted(elements@, output.geometry, clear_color).visible,
            r@.states == all_sighted(elements@, output.geometry, clear_color).states,
            r@.clear_color == all_sighted(elements@, output.geometry, clear_color).clear_color,
            r@.effect_regions == effect_regions_spec(
                r@.visible.map_values(
                    |e: VisibleElement| (e.info.is_framebuffer_effect, e.info.geometry),
                ),
            ),
            legacy_choice(r@, core@),
            r@ == (FrameView {
                output,
                flags,
                allow_partial_update,
                frame: r@.frame,
                primary_state,
                visible: r@.visible,
                states: r@.states,
                clear_color: r@.clear_color,
                effect_regions: r@.effect_regions,
                disable_pending: r@.disable_pending,
                legacy_index: r@.legacy_index,
                legacy_cursor: None,
                legacy_tried: false,
                index: 0,
                primary_plane_elements: Seq::empty(),
                primary_scanout: None,
                overlay_elements: Seq::empty(),
                cursor_element: None,
            }),
    {
        let mut frame = FrameState::from_planes(
            core.primary.handle,
            &core.planes,
            !core.policy.reserves_legacy_cursor(),
        );
        frame.mark_resets(previous);
        frame.set_state(core.primary.handle, primary_state);
        let found = find_visible(elements, output.geometry, clear_color);
        let visible = found.visible;
        let mut stack: Vec<(bool, Rectangle)> = Vec::new();
        let mut i: usize = 0;
        let ghost flagged = visible@.map_values(
            |e: VisibleElement| (e.info.is_framebuffer_effect, e.info.geometry),
        );
        while i < visible.len()
            invariant
                i <= visible.len(),
                flagged == visible@.map_values(
                    |e: VisibleElement| (e.info.is_framebuffer_effect, e.info.geometry),
                ),
                stack@ == flagged.take(i as int),
            decreases visible.len() - i,
        {
            let info = visible[i].info;
            stack.push((info.is_framebuffer_effect, info.geometry));
            assert(stack@ =~= flagged.take(i as int + 1));
            i = i + 1;
        }
        assert(flagged.take(i as int) =~= flagged);
        let mut regions = effect_regions;
        collect_framebuffer_effect_regions(&mut regions, stack.as_slice());
        let mut legacy_index: Option<usize> = None;
        if flags.contains(FrameFlags::ALLOW_LEGACY_CURSOR) && core.policy.reserves_legacy_cursor() {
            if let Some(i) = only_cursor(&visible) {
                let info = visible[i].info;
                if !info.is_framebuffer_effect && !below_framebuffer_effect(
                    i,
                    info.geometry,
                    regions.as_slice(),
                ) {
                    legacy_index = Some(i);
                }
            }
        }
        let disable_pending = if legacy_index.is_some() {
            false
        } else {
            match &core.cursor {
                Some(cursor) => cursor.legacy.active_presentation().is_some(),
                None => false,
            }
        };
        proof {
            let pixels = area(output.geometry);
            assert(0 <= pixels) by (nonlinear_arith)
                requires
                    pixels == output.geometry.size.w * output.geometry.size.h,
                    0 <= output.geometry.size.w,
                    0 <= output.geometry.size.h,
            ;
            assert((visible@.len() + 1) * pixels <= (elements@.len() + 1) * pixels)
                by (nonlinear_arith)
                requires
                    visible@.len() <= elements@.len(),
                    0 <= pixels,
            ;
            assert(1 * pixels == pixels);
            assert forall|j: int| 0 <= j < visible@.len() implies {
                &&& (#[trigger] visible@[j]).info.comparable()
                &&& element_fits(visible@[j].info, output, core@)
                &&& legacy_fits(visible@[j].info, output, core@.cursor_size)
                &&& visible@[j].visible_area <= pixels
            } by {
                let k = choose|k: int|
                    0 <= k < elements@.len() && (#[trigger] elements@[k]).info == visible@[j].info
                        && on_output(elements@[k], output.geometry);
                assert(elements@[k].info.comparable());
                visible_rectangles_can_be_turned(
                    elements@[k].info.geometry,
                    output.geometry,
                    output.transform,
                );
            }
            assert(visible.len() <= usize::MAX);
        }
        let r = FrameRender {
            output,
            flags,
            allow_partial_update,
            frame,
            primary_state,
            visible,
            states: found.states,
            clear_color: found.clear_color,
            effect_regions: regions,
            disable_pending,
            legacy_index,
            legacy_cursor: None,
            legacy_tried: false,
            index: 0,
            primary_plane_elements: Vec::new(),
            primary_scanout: None,
            overlay_elements: OverlayElements::new(),
            cursor_element: None,
        };
        proof {
            if let Some(i) = legacy_index {
                assert(legacy_candidate(r@, i as int));
            } else if flags.has_all(FrameFlags::ALLOW_LEGACY_CURSOR) && core@.policy.reserves_spec() {
                assert forall|i: int| !legacy_candidate(r@, i) by {}
            }
        }
        r
    }
}

} // verus!
