//! Frames that are ready to be shown.

use vstd::prelude::*;
use crate::buffer::{DrmScanoutBuffer, SyncPoint};
use crate::core_state::{Core, CoreView};
use crate::flags::FrameFlags;
use crate::frame_build::{FrameRender, FrameView};
use crate::frame_finish::{in_list, is_in_list};
use crate::frame_state::{knows, state_of, with_state, FrameState};
use crate::geometry::Transform;
use crate::legacy_cursor::LegacyCursorPresentation;
use crate::plane::{PlaneInfo, PlaneState};
use crate::render_states::RenderElementStates;

verus! {

/// How much of the planes an update names.
#[derive(Clone, Copy, Debug, PartialEq, Eq, Structural)]
pub enum PreparedFrameKind {
    Full,
    Partial,
}

/// Whether no plane of the frame needs an update.
pub open spec fn all_skipped(frame: Seq<(u32, PlaneState)>) -> bool {
    forall|i: int| 0 <= i < frame.len() ==> (#[trigger] frame[i]).1.skip
}

/// A frame that is ready to be shown.
pub struct PreparedFrame {
    pub frame: FrameState,
    pub kind: PreparedFrameKind,
}

impl PreparedFrame {
    pub open spec fn is_empty_spec(&self) -> bool {
        self.kind == PreparedFrameKind::Partial && all_skipped(self.frame@)
    }

    /// Whether showing the frame would change nothing. A full update is never empty.
    pub fn is_empty(&self) -> (r: bool)
        ensures
            r == self.is_empty_spec(),
    {
        if self.kind != PreparedFrameKind::Partial {
            return false;
        }
        let n: usize = self.frame.len();
        let mut i: usize = 0;
        while i < n
            invariant
                i <= n,
                n == self.frame@.len(),
                forall|j: int| 0 <= j < i ==> (#[trigger] self.frame@[j]).1.skip,
            decreases n - i,
        {
            if !self.frame.entry(i).1.skip {
                return false;
            }
            i = i + 1;
        }
        true
    }
}

/// Whether the frame updates nothing but cursor planes.
pub open spec fn only_updates_cursors(
    frame: Seq<(u32, PlaneState)>,
    cursor_planes: Seq<PlaneInfo>,
) -> bool {
    forall|i: int|
        0 <= i < frame.len() ==> (#[trigger] frame[i]).1.skip || in_list(cursor_planes, frame[i].0)
}

/// The frame with none of the planes being updated.
pub open spec fn planes_skipped(frame: Seq<(u32, PlaneState)>, planes: Seq<PlaneInfo>) -> Seq<
    (u32, PlaneState),
>
    decreases planes.len(),
{
    if planes.len() == 0 {
        frame
    } else {
        let before = planes_skipped(frame, planes.drop_last());
        let handle = planes.last().handle;
        match state_of(before, handle) {
            Some(state) => with_state(before, handle, PlaneState { skip: true, ..state }),
            None => before,
        }
    }
}

fn updates_only_cursors(frame: &FrameState, cursor_planes: &Vec<PlaneInfo>) -> (r: bool)
    ensures
        r == only_updates_cursors(frame@, cursor_planes@),
{
    let n: usize = frame.len();
    let mut i: usize = 0;
    while i < n
        invariant
            i <= n,
            n == frame@.len(),
            forall|j: int|
                0 <= j < i ==> (#[trigger] frame@[j]).1.skip || in_list(
                    cursor_planes@,
                    frame@[j].0,
                ),
        decreases n - i,
    {
        let (handle, state) = frame.entry(i);
        if !state.skip && !is_in_list(cursor_planes, handle) {
            return false;
        }
        i = i + 1;
    }
    true
}

/// What the primary plane shows.
#[derive(Clone, Copy, Debug, PartialEq, Eq, Structural)]
pub enum PrimaryPlaneElement {
    /// A rendered buffer.
    Swapchain { slot: DrmScanoutBuffer, transform: Transform, sync: SyncPoint },
    /// An element, by its place among the visible ones.
    Element(usize),
}

/// What came of a frame.
pub struct RenderFrameResult {
    /// Whether the frame contains no changes.
    pub is_empty: bool,
    pub primary_element: PrimaryPlaneElement,
    pub overlay_elements: Vec<usize>,
    pub cursor_element: Option<usize>,
    pub legacy_cursor: Option<LegacyCursorPresentation>,
    pub states: RenderElementStates,
    pub primary_plane_element_id: u64,
    pub supports_fencing: bool,
}

/// The frame as it goes out: an update of nothing but cursor planes is dropped where that is
/// asked for and allowed.
pub open spec fn outgoing(view: FrameView, core: CoreView) -> Seq<(u32, PlaneState)> {
    if view.flags.has_all(FrameFlags::SKIP_CURSOR_ONLY_UPDATES) && view.allow_partial_update
        && only_updates_cursors(view.frame, core.planes.cursor@) {
        planes_skipped(view.frame, core.planes.cursor@)
    } else {
        view.frame
    }
}

/// Whether there is something to say about the primary plane: the buffer it shows if it was
/// rendered, and the element it shows if it was not.
pub open spec fn primary_settled(view: FrameView, core: CoreView, was_rendered: bool) -> bool {
    if was_rendered {
        state_of(view.frame, core.primary.handle) matches Some(state) && state.config.is_some()
    } else {
        view.primary_scanout.is_some()
    }
}

/// What the primary plane shows in the end, given whether it was rendered.
pub open spec fn primary_element_spec(
    view: FrameView,
    core: CoreView,
    was_rendered: bool,
) -> PrimaryPlaneElement {
    if was_rendered {
        let config = state_of(view.frame, core.primary.handle)->0.config->0;
        PrimaryPlaneElement::Swapchain {
            slot: config.buffer,
            transform: view.output.transform,
            sync: match config.sync {
                Some(sync) => sync.point,
                None => SyncPoint::Signaled,
            },
        }
    } else {
        PrimaryPlaneElement::Element(view.primary_scanout->0)
    }
}

impl FrameRender {
    fn primary_element(&self, core: &Core, was_rendered: bool) -> (r: PrimaryPlaneElement)
        requires
            primary_settled(self@, core@, was_rendered),
        ensures
            r == primary_element_spec(self@, core@, was_rendered),
    {
        if was_rendered {
            if let Some(state) = self.frame.plane_state(core.primary.handle) {
                if let Some(config) = state.config {
                    return PrimaryPlaneElement::Swapchain {
                        slot: config.buffer,
                        transform: self.output.transform,
                        sync: match config.sync {
                            Some(sync) => sync.point,
                            None => SyncPoint::Signaled,
                        },
                    };
                }
            }
        }
        match self.primary_scanout {
            Some(element) => PrimaryPlaneElement::Element(element),
            None => PrimaryPlaneElement::Element(0),
        }
    }

    fn skip_planes(&mut self, planes: &Vec<PlaneInfo>)
        ensures
            final(self)@ == (FrameView {
                frame: planes_skipped(old(self)@.frame, planes@),
                ..old(self)@
            }),
    {
        let mut i: usize = 0;
        assert(planes@.take(0) =~= Seq::empty());
        while i < planes.len()
            invariant
                i <= planes.len(),
                self@ == (FrameView {
                    frame: planes_skipped(old(self)@.frame, planes@.take(i as int)),
                    ..old(self)@
                }),
            decreases planes.len() - i,
        {
            let handle: u32 = planes[i].handle;
            assert(planes@.take(i as int + 1).drop_last() =~= planes@.take(i as int));
            if let Some(state) = self.frame.plane_state(handle) {
                self.frame.set_state(handle, PlaneState { skip: true, ..state });
            }
            i = i + 1;
        }
        assert(planes@.take(i as int) =~= planes@);
    }

    /// Ends the frame. Hands out the frame to be queued and what came of it; the frame is to be
    /// kept only if it is not empty.
    pub fn finish(
        self,
        core: &Core,
        was_rendered: bool,
        primary_plane_element_id: u64,
        supports_fencing: bool,
    ) -> (r: (PreparedFrame, RenderFrameResult))
        requires
            primary_settled(self@, core@, was_rendered),
        ensures
            r.0.frame@ == outgoing(self@, core@),
            r.0.kind == (if self@.allow_partial_update {
                PreparedFrameKind::Partial
            } else {
                PreparedFrameKind::Full
            }),
            r.1.is_empty == r.0.is_empty_spec(),
            r.1.primary_element == primary_element_spec(self@, core@, was_rendered),
            r.1.overlay_elements@ == Seq::new(
                self@.overlay_elements.len(),
                |i: int| self@.overlay_elements[i].1,
            ),
            r.1.cursor_element == self@.cursor_element,
            r.1.legacy_cursor == self@.legacy_cursor,
            r.1.states@ == self@.states,
            r.1.primary_plane_element_id == primary_plane_element_id,
            r.1.supports_fencing == supports_fencing,
    {
        let mut this = self;
        let primary_element = this.primary_element(core, was_rendered);
        if this.flags.contains(FrameFlags::SKIP_CURSOR_ONLY_UPDATES) && this.allow_partial_update
            && updates_only_cursors(&this.frame, &core.planes.cursor) {
            this.skip_planes(&core.planes.cursor);
        }
        let entries = this.overlay_elements.list();
        let mut overlay_elements: Vec<usize> = Vec::new();
        let ghost elements = Seq::new(entries@.len(), |i: int| entries@[i].1);
        let mut i: usize = 0;
        while i < entries.len()
            invariant
                i <= entries.len(),
                elements == Seq::new(entries@.len(), |i: int| entries@[i].1),
                overlay_elements@ == elements.take(i as int),
            decreases entries.len() - i,
        {
            overlay_elements.push(entries[i].1);
            assert(overlay_elements@ =~= elements.take(i as int + 1));
            i = i + 1;
        }
        assert(elements.take(i as int) =~= elements);
        assert(elements =~= Seq::new(
            self@.overlay_elements.len(),
            |i: int| self@.overlay_elements[i].1,
        ));
        let kind = if this.allow_partial_update {
            PreparedFrameKind::Partial
        } else {
            PreparedFrameKind::Full
        };
        let prepared = PreparedFrame { frame: this.frame, kind };
        let is_empty = prepared.is_empty();
        (
            prepared,
            RenderFrameResult {
                is_empty,
                primary_element,
                overlay_elements,
                cursor_element: this.cursor_element,
                legacy_cursor: this.legacy_cursor,
                states: this.states,
                primary_plane_element_id,
                supports_fencing,
            },
        )
    }
}

/// A frame that updates nothing but cursor planes and is dropped for it is empty.
pub proof fn dropped_cursor_updates_are_empty(view: FrameView, core: CoreView)
    requires
        view.flags.has_all(FrameFlags::SKIP_CURSOR_ONLY_UPDATES),
        view.allow_partial_update,
        only_updates_cursors(view.frame, core.planes.cursor@),
        forall|i: int, j: int|
            0 <= i < j < view.frame.len() ==> (#[trigger] view.frame[i]).0 != (
            #[trigger] view.frame[j]).0,
    ensures
        all_skipped(outgoing(view, core)),
{
    let planes = core.planes.cursor@;
    lemma_planes_skipped(view.frame, planes);
    let after = planes_skipped(view.frame, planes);
    assert forall|i: int| 0 <= i < after.len() implies (#[trigger] after[i]).1.skip by {
        assert(view.frame[i].0 == after[i].0);
        if !view.frame[i].1.skip {
            assert(in_list(planes, view.frame[i].0));
        }
    }
}

proof fn lemma_planes_skipped(frame: Seq<(u32, PlaneState)>, planes: Seq<PlaneInfo>)
    requires
        forall|i: int, j: int|
            0 <= i < j < frame.len() ==> (#[trigger] frame[i]).0 != (#[trigger] frame[j]).0,
    ensures
        planes_skipped(frame, planes).len() == frame.len(),
        forall|i: int|
            0 <= i < frame.len() ==> {
                &&& (#[trigger] planes_skipped(frame, planes)[i]).0 == frame[i].0
                &&& frame[i].1.skip || in_list(planes, frame[i].0) ==> planes_skipped(
                    frame,
                    planes,
                )[i].1.skip
            },
    decreases planes.len(),
{
    if planes.len() > 0 {
        let front = planes.drop_last();
        lemma_planes_skipped(frame, front);
        let before = planes_skipped(frame, front);
        let after = planes_skipped(frame, planes);
        let handle = planes.last().handle;
        crate::frame_state::index_is_the_first_entry(before, handle);
        let at = crate::frame_state::index_of(before, handle);
        assert forall|i: int| 0 <= i < frame.len() implies {
            &&& (#[trigger] after[i]).0 == frame[i].0
            &&& frame[i].1.skip || in_list(planes, frame[i].0) ==> after[i].1.skip
        } by {
            assert(before[i].0 == frame[i].0);
            if knows(before, handle) {
                assert(before[at].0 == frame[at].0);
            }
            if frame[i].0 == handle {
                if i < at {
                    assert(before[i].0 != handle);
                }
                if at < i && knows(before, handle) {
                    assert(frame[at].0 != frame[i].0);
                }
                if !knows(before, handle) {
                    assert(before[i].0 != handle);
                }
            } else if in_list(planes, frame[i].0) {
                let k = choose|k: int|
                    0 <= k < planes.len() && (#[trigger] planes[k]).handle == frame[i].0;
                assert(front[k].handle == frame[i].0);
            }
        }
    }
}

} // verus!
