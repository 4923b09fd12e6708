//! The end of a frame: the final test, what is rendered, and what is handed out.

use vstd::prelude::*;
use crate::assignment::buffer_of;
use crate::buffer::{PlaneSync, SyncPoint};
use crate::core_state::{Core, CoreView};
use crate::element::RenderElementState;
use crate::frame_build::{FrameRender, FrameStep, FrameView};
use crate::frame_state::{all_tested, state_of, test_skippable, with_state, FrameState};
use crate::overlay_map::{has_plane_id, id_for, ids_after, key_removed, value_of, OverlayPlaneElementIds};
use crate::plane::{PlaneConfig, PlaneInfo, PlaneState};
use crate::render_states::with_rendered;

verus! {

// ---------------------------------------------------------------------------------------------
// The final test
// ---------------------------------------------------------------------------------------------

/// Whether the plane is one of the list.
pub open spec fn in_list(planes: Seq<PlaneInfo>, handle: u32) -> bool {
    exists|i: int| 0 <= i < planes.len() && (#[trigger] planes[i]).handle == handle
}

pub fn is_in_list(planes: &Vec<PlaneInfo>, handle: u32) -> (r: bool)
    ensures
        r == in_list(planes@, handle),
{
    let mut i: usize = 0;
    while i < planes.len()
        invariant
            i <= planes.len(),
            forall|j: int| 0 <= j < i ==> (#[trigger] planes@[j]).handle != handle,
        decreases planes.len() - i,
    {
        if planes[i].handle == handle {
            assert(planes@[i as int].handle == handle);
            return true;
        }
        i = i + 1;
    }
    false
}

/// A frame from which elements are taken back, with the elements taken so far and their depth.
#[verifier::ext_equal]
pub struct Retreat {
    pub view: FrameView,
    pub removed: Seq<(usize, usize)>,
}

/// The element on a plane, and the frame without it there.
pub open spec fn take_element(view: FrameView, core: CoreView, handle: u32) -> (
    Option<usize>,
    FrameView,
) {
    if handle == core.primary.handle {
        (view.primary_scanout, FrameView { primary_scanout: None, ..view })
    } else if in_list(core.planes.cursor@, handle) {
        (view.cursor_element, FrameView { cursor_element: None, ..view })
    } else {
        (
            value_of(view.overlay_elements, handle),
            FrameView { overlay_elements: key_removed(view.overlay_elements, handle), ..view },
        )
    }
}

/// The state of a plane that was given up.
pub open spec fn given_up() -> PlaneState {
    PlaneState { skip: false, needs_test: false, element_state: None, config: None }
}

/// Takes back what the plane at a position shows, if that was not tested yet.
pub open spec fn retreat_step(r: Retreat, core: CoreView, index: int) -> Retreat {
    let (handle, state) = r.view.frame[index];
    if !state.needs_test {
        r
    } else {
        let (element, view) = take_element(r.view, core, handle);
        match element {
            None => Retreat { view, ..r },
            Some(element) => Retreat {
                view: FrameView {
                    frame: view.frame.update(index, (handle, given_up())),
                    states: view.states.remove(view.visible[element as int].info.id),
                    ..view
                },
                removed: r.removed.push(
                    (
                        match state.element_state {
                            Some(shown) => shown.z_index,
                            None => 0,
                        },
                        element,
                    ),
                ),
            },
        }
    }
}

pub open spec fn retreated(view: FrameView, core: CoreView, upto: nat) -> Retreat
    decreases upto,
{
    if upto == 0 {
        Retreat { view, removed: Seq::empty() }
    } else {
        retreat_step(retreated(view, core, (upto - 1) as nat), core, upto - 1)
    }
}

/// A list with one more element, behind all that are not deeper.
pub open spec fn insert_by_depth(sorted: Seq<(usize, usize)>, element: (usize, usize)) -> Seq<
    (usize, usize),
>
    decreases sorted.len(),
{
    if sorted.len() == 0 || sorted.last().0 <= element.0 {
        sorted.push(element)
    } else {
        insert_by_depth(sorted.drop_last(), element).push(sorted.last())
    }
}

/// The elements by depth, those of the same depth in the order they had.
pub open spec fn by_depth(removed: Seq<(usize, usize)>) -> Seq<(usize, usize)>
    decreases removed.len(),
{
    if removed.len() == 0 {
        removed
    } else {
        insert_by_depth(by_depth(removed.drop_last()), removed.last())
    }
}

/// The frame after the device refused it: everything that was not tested yet is rendered, in front
/// of what was to be rendered anyway.
pub open spec fn fallen_back(view: FrameView, core: CoreView) -> FrameView {
    let r = retreated(view, core, view.frame.len());
    let sorted = by_depth(r.removed);
    FrameView {
        frame: if r.removed.len() > 0 {
            with_state(r.view.frame, core.primary.handle, view.primary_state)
        } else {
            r.view.frame
        },
        primary_plane_elements: Seq::new(sorted.len(), |i: int| sorted[i].1)
            + view.primary_plane_elements,
        ..r.view
    }
}

/// The elements by depth are the elements, and they are sorted.
pub proof fn by_depth_sorts(removed: Seq<(usize, usize)>)
    ensures
        by_depth(removed).to_multiset() == removed.to_multiset(),
        by_depth(removed).len() == removed.len(),
        forall|i: int, j: int|
            0 <= i < j < by_depth(removed).len() ==> (#[trigger] by_depth(removed)[i]).0 <= (
            #[trigger] by_depth(removed)[j]).0,
    decreases removed.len(),
{
    if removed.len() > 0 {
        by_depth_sorts(removed.drop_last());
        lemma_insert_sorted(by_depth(removed.drop_last()), removed.last());
        removed.drop_last().to_multiset_ensures();
        assert(removed.drop_last().push(removed.last()) =~= removed);
    }
}

proof fn lemma_insert_sorted(sorted: Seq<(usize, usize)>, element: (usize, usize))
    requires
        forall|i: int, j: int|
            0 <= i < j < sorted.len() ==> (#[trigger] sorted[i]).0 <= (#[trigger] sorted[j]).0,
    ensures
        insert_by_depth(sorted, element).to_multiset() == sorted.to_multiset().insert(element),
        insert_by_depth(sorted, element).len() == sorted.len() + 1,
        forall|i: int, j: int|
            0 <= i < j < insert_by_depth(sorted, element).len() ==> (#[trigger] insert_by_depth(
                sorted,
                element,
            )[i]).0 <= (#[trigger] insert_by_depth(sorted, element)[j]).0,
        sorted.len() > 0 ==> insert_by_depth(sorted, element).last().0 == (if sorted.last().0
            <= element.0 {
            element.0
        } else {
            sorted.last().0
        }),
        sorted.len() == 0 ==> insert_by_depth(sorted, element).last().0 == element.0,
    decreases sorted.len(),
{
    sorted.to_multiset_ensures();
    if sorted.len() == 0 || sorted.last().0 <= element.0 {
    } else {
        let front = sorted.drop_last();
        lemma_insert_sorted(front, element);
        let inner = insert_by_depth(front, element);
        inner.to_multiset_ensures();
        front.to_multiset_ensures();
        assert(front.push(sorted.last()) =~= sorted);
        let result = inner.push(sorted.last());
        assert(inner.last().0 <= sorted.last().0) by {
            if front.len() > 0 {
                assert(front.last() == sorted[sorted.len() - 2]);
            }
        }
        assert forall|i: int, j: int| 0 <= i < j < result.len() implies (#[trigger] result[i]).0 <= (
        #[trigger] result[j]).0 by {
            if j == inner.len() && i < inner.len() - 1 {
                assert(inner[i].0 <= inner[inner.len() - 1].0);
            }
        }
        assert(inner.to_multiset().insert(sorted.last()) =~= sorted.to_multiset().insert(element));
    }
}

proof fn lemma_insert_at(sorted: Seq<(usize, usize)>, element: (usize, usize), at: int)
    requires
        0 <= at <= sorted.len(),
        at > 0 ==> sorted[at - 1].0 <= element.0,
        forall|j: int| at <= j < sorted.len() ==> (#[trigger] sorted[j]).0 > element.0,
    ensures
        insert_by_depth(sorted, element) == sorted.insert(at, element),
    decreases sorted.len(),
{
    if sorted.len() == 0 || sorted.last().0 <= element.0 {
        if at < sorted.len() {
            assert(sorted[sorted.len() - 1].0 > element.0);
        }
        assert(sorted.insert(at, element) =~= sorted.push(element));
    } else {
        let front = sorted.drop_last();
        assert(at < sorted.len());
        lemma_insert_at(front, element, at);
        assert(front.insert(at, element).push(sorted.last()) =~= sorted.insert(at, element));
    }
}

/// Sorts elements by depth; those of the same depth keep their order.
pub fn sort_by_depth(removed: &Vec<(usize, usize)>) -> (r: Vec<(usize, usize)>)
    ensures
        r@ == by_depth(removed@),
{
    let mut sorted: Vec<(usize, usize)> = Vec::new();
    let mut i: usize = 0;
    assert(removed@.take(0) =~= Seq::empty());
    while i < removed.len()
        invariant
            i <= removed.len(),
            sorted@ == by_depth(removed@.take(i as int)),
        decreases removed.len() - i,
    {
        let element = removed[i];
        let mut at: usize = sorted.len();
        while at > 0 && sorted[at - 1].0 > element.0
            invariant
                at <= sorted.len(),
                forall|j: int| at <= j < sorted@.len() ==> (#[trigger] sorted@[j]).0 > element.0,
            decreases at,
        {
            at = at - 1;
        }
        proof {
            lemma_insert_at(sorted@, element, at as int);
            assert(removed@.take(i as int + 1).drop_last() =~= removed@.take(i as int));
        }
        sorted.insert(at, element);
        i = i + 1;
    }
    assert(removed@.take(i as int) =~= removed@);
    sorted
}

impl FrameRender {
    /// The element on a plane, which is no longer considered to be there.
    fn take_element(&mut self, core: &Core, handle: u32) -> (r: Option<usize>)
        requires
            old(self)@.wf(core@),
        ensures
            (r, final(self)@) == take_element(old(self)@, core@, handle),
            final(self)@.wf(core@),
            r matches Some(i) ==> i < final(self)@.visible.len(),
    {
        let r: Option<usize> = if handle == core.primary.handle {
            self.primary_scanout.take()
        } else if is_in_list(&core.planes.cursor, handle) {
            self.cursor_element.take()
        } else {
            proof {
                crate::overlay_map::key_index_is_first(self@.overlay_elements, handle);
                let entries = self@.overlay_elements;
                let after = key_removed(entries, handle);
                assert forall|k: int| 0 <= k < after.len() implies (#[trigger] after[k]).1
                    < self@.visible.len() by {
                    let i = crate::overlay_map::key_index(entries, handle);
                    if i < entries.len() {
                        if k < i {
                            assert(after[k] == entries[k]);
                        } else {
                            assert(after[k] == entries[k + 1]);
                        }
                    } else {
                        assert(after[k] == entries[k]);
                    }
                }
            }
            self.overlay_elements.remove(handle)
        };
        assert(self@ =~= take_element(old(self)@, core@, handle).1);
        r
    }

    fn fall_back(&mut self, core: &Core)
        requires
            old(self)@.wf(core@),
        ensures
            final(self)@ == fallen_back(old(self)@, core@),
            final(self)@.wf(core@),
    {
        let mut removed: Vec<(usize, usize)> = Vec::new();
        let n: usize = self.frame.len();
        let mut i: usize = 0;
        while i < n
            invariant
                i <= n,
                n == old(self)@.frame.len(),
                self@.frame.len() == n,
                self@.wf(core@),
                self@.visible == old(self)@.visible,
                self@.primary_state == old(self)@.primary_state,
                self@.primary_plane_elements == old(self)@.primary_plane_elements,
                retreated(old(self)@, core@, i as nat) == (Retreat {
                    view: self@,
                    removed: removed@,
                }),
                forall|k: int|
                    0 <= k < removed@.len() ==> (#[trigger] removed@[k]).1 < self@.visible.len(),
            decreases n - i,
        {
            let ghost before = self@;
            let (handle, state) = self.frame.entry(i);
            if state.needs_test {
                if let Some(element) = self.take_element(core, handle) {
                    let ghost taken = self@;
                    let depth: usize = match state.element_state {
                        Some(shown) => shown.z_index,
                        None => 0,
                    };
                    self.frame.set_entry(
                        i,
                        PlaneState {
                            skip: false,
                            needs_test: false,
                            element_state: None,
                            config: None,
                        },
                    );
                    let id: u64 = self.visible[element].info.id;
                    self.states.remove(id);
                    removed.push((depth, element));
                    assert(self@ =~= (FrameView {
                        frame: taken.frame.update(i as int, (handle, given_up())),
                        states: taken.states.remove(id),
                        ..taken
                    }));
                }
            }
            i = i + 1;
        }
        if !removed.is_empty() {
            self.frame.set_state(core.primary.handle, self.primary_state);
        }
        let sorted = sort_by_depth(&removed);
        proof {
            by_depth_sorts(removed@);
            removed@.to_multiset_ensures();
            sorted@.to_multiset_ensures();
            assert forall|k: int| 0 <= k < sorted@.len() implies (#[trigger] sorted@[k]).1
                < self@.visible.len() by {
                assert(sorted@.to_multiset().contains(sorted@[k]));
                assert(removed@.contains(sorted@[k]));
                let m = choose|m: int| 0 <= m < removed@.len() && removed@[m] == sorted@[k];
                assert(removed@[m].1 < self@.visible.len());
            }
        }
        let mut elements: Vec<usize> = Vec::new();
        let ghost front = Seq::new(sorted@.len(), |i: int| sorted@[i].1);
        let mut k: usize = 0;
        while k < sorted.len()
            invariant
                k <= sorted.len(),
                front == Seq::new(sorted@.len(), |i: int| sorted@[i].1),
                elements@ == front.take(k as int),
            decreases sorted.len() - k,
        {
            elements.push(sorted[k].1);
            assert(elements@ =~= front.take(k as int + 1));
            k = k + 1;
        }
        assert(front.take(k as int) =~= front);
        let mut m: usize = 0;
        assert(elements@ =~= front + self.primary_plane_elements@.take(0));
        while m < self.primary_plane_elements.len()
            invariant
                m <= self.primary_plane_elements.len(),
                elements@ == front + self.primary_plane_elements@.take(m as int),
            decreases self.primary_plane_elements.len() - m,
        {
            elements.push(self.primary_plane_elements[m]);
            assert(elements@ =~= front + self.primary_plane_elements@.take(m as int + 1));
            m = m + 1;
        }
        assert(self.primary_plane_elements@.take(m as int) =~= self.primary_plane_elements@);
        proof {
            let all = front + self.primary_plane_elements@;
            assert forall|j: int| 0 <= j < all.len() implies (#[trigger] all[j])
                < self@.visible.len() by {
                if j < front.len() {
                    assert(sorted@[j].1 < self@.visible.len());
                } else {
                    assert(self.primary_plane_elements@[j - front.len()] < self@.visible.len());
                }
            }
        }
        self.primary_plane_elements = elements;
        assert(self@ =~= fallen_back(old(self)@, core@));
    }

    /// Whether the final test can be left out.
    pub fn skips_test(&self, previous: &FrameState) -> (r: bool)
        ensures
            r == test_skippable(self@.frame, previous@, self@.allow_partial_update),
    {
        self.frame.skips_complete_test(previous, self.allow_partial_update)
    }

    /// Goes on after the final test, or after it was left out, which counts as passed.
    pub fn complete_test(&mut self, core: &Core, passed: bool)
        requires
            old(self)@.wf(core@),
            old(self)@.step() == FrameStep::TestFrame,
        ensures
            final(self)@.wf(core@),
            final(self)@ == (if passed {
                FrameView { frame: all_tested(old(self)@.frame), ..old(self)@ }
            } else {
                fallen_back(old(self)@, core@)
            }),
    {
        if passed {
            self.frame.mark_tested();
            assert(self@ =~= (FrameView { frame: all_tested(old(self)@.frame), ..old(self)@ }));
        } else {
            self.fall_back(core);
        }
    }
}

// ---------------------------------------------------------------------------------------------
// Rendering
// ---------------------------------------------------------------------------------------------

/// Whether the primary plane shows a buffer of the swapchain, which then has to be rendered.
pub open spec fn is_rendered(frame: Seq<(u32, PlaneState)>, primary: u32) -> bool {
    buffer_of(frame, primary) matches Some(buffer) && buffer.buffer is Swapchain
}

/// The stacking position of the first plane with a handle.
pub open spec fn z_of(planes: Seq<PlaneInfo>, handle: u32) -> int
    decreases planes.len(),
{
    if planes.len() == 0 {
        0
    } else if planes[0].handle == handle {
        planes[0].z_spec()
    } else {
        z_of(planes.skip(1), handle)
    }
}

fn find_z(planes: &Vec<PlaneInfo>, handle: u32) -> (r: i32)
    ensures
        r == z_of(planes@, handle),
{
    let mut i: usize = 0;
    assert(planes@.skip(0) =~= planes@);
    while i < planes.len()
        invariant
            i <= planes.len(),
            z_of(planes@, handle) == z_of(planes@.skip(i as int), handle),
        decreases planes.len() - i,
    {
        assert(planes@.skip(i as int)[0] == planes@[i as int]);
        assert(planes@.skip(i as int).skip(1) =~= planes@.skip(i as int + 1));
        if planes[i].handle == handle {
            return planes[i].z();
        }
        i = i + 1;
    }
    0
}

/// What stands in the rendering for an element on an overlay plane: a hole through which an
/// underlay is seen, or the regions that an overlay hides.
#[derive(Clone, Copy, Debug, PartialEq, Eq, Structural)]
pub struct PlaneElement {
    pub id: u64,
    pub element: usize,
    pub underlay: bool,
}

/// The stand-ins for the elements on overlay planes, and the ids they are known by.
pub open spec fn stand_ins(
    view: FrameView,
    core: CoreView,
    ids: Seq<(u32, u64, u64)>,
    fresh: Seq<u64>,
    upto: nat,
) -> (Seq<PlaneElement>, Seq<(u32, u64, u64)>)
    decreases upto,
{
    if upto == 0 {
        (Seq::empty(), ids)
    } else {
        let (before, ids) = stand_ins(view, core, ids, fresh, (upto - 1) as nat);
        let (plane, element) = view.overlay_elements[upto - 1];
        let element_id = view.visible[element as int].info.id;
        (
            before.push(
                PlaneElement {
                    id: id_for(ids, plane, element_id, fresh[upto - 1]),
                    element,
                    underlay: z_of(core.planes.overlay@, plane) < core.primary.z_spec(),
                },
            ),
            ids_after(ids, plane, element_id, fresh[upto - 1]),
        )
    }
}

/// What the rendering changes about the damage of the primary plane.
#[derive(Clone, Copy, Debug, PartialEq, Eq, Structural)]
pub enum DamageReport {
    /// What was rendered is damaged.
    Rendered,
    /// The whole output is damaged, as the primary plane showed an element before.
    WholeOutput,
    /// Nothing is damaged.
    Nothing,
}

/// Whether the primary plane showed an element in the previous frame. A plane nothing is known
/// about might have.
pub open spec fn had_direct_scanout(previous: Seq<(u32, PlaneState)>, primary: u32) -> bool {
    match state_of(previous, primary) {
        Some(state) => state.element_state.is_some(),
        None => true,
    }
}

pub open spec fn damage_report_spec(
    previous: Seq<(u32, PlaneState)>,
    primary: u32,
    has_damage: bool,
) -> DamageReport {
    if had_direct_scanout(previous, primary) {
        DamageReport::WholeOutput
    } else if has_damage {
        DamageReport::Rendered
    } else {
        DamageReport::Nothing
    }
}

/// The state of the primary plane after rendering. Without damage it is skipped and stays as it
/// was.
pub open spec fn rendered_state(
    state: PlaneState,
    previous: Seq<(u32, PlaneState)>,
    primary: u32,
    report: DamageReport,
    damage_clips: Option<u64>,
    sync: SyncPoint,
) -> PlaneState {
    let config = state.config->0;
    match report {
        DamageReport::Rendered => PlaneState {
            config: Some(
                PlaneConfig {
                    damage_clips,
                    sync: Some(PlaneSync { point: sync, fence: None }),
                    ..config
                },
            ),
            ..state
        },
        DamageReport::WholeOutput => PlaneState {
            config: Some(
                PlaneConfig { sync: Some(PlaneSync { point: sync, fence: None }), ..config },
            ),
            ..state
        },
        DamageReport::Nothing => PlaneState {
            skip: true,
            config: match state_of(previous, primary) {
                Some(PlaneState { config: Some(kept), .. }) => Some(kept),
                _ => Some(config),
            },
            ..state
        },
    }
}

/// The states once the renderer's reports were taken in, but for those of stand-ins.
pub open spec fn merged_states(
    states: Map<u64, RenderElementState>,
    ids: Seq<(u32, u64, u64)>,
    reported: Seq<(u64, RenderElementState)>,
) -> Map<u64, RenderElementState>
    decreases reported.len(),
{
    if reported.len() == 0 {
        states
    } else {
        let before = merged_states(states, ids, reported.drop_last());
        let (id, state) = reported.last();
        if has_plane_id(ids, id) {
            before
        } else {
            with_rendered(before, id, state)
        }
    }
}

/// Whether the reports are one per element, and the visible pixels can be added up.
pub open spec fn mergeable(
    states: Map<u64, RenderElementState>,
    reported: Seq<(u64, RenderElementState)>,
) -> bool {
    &&& forall|i: int, j: int|
        0 <= i < j < reported.len() ==> (#[trigger] reported[i]).0 != (#[trigger] reported[j]).0
    &&& forall|i: int|
        0 <= i < reported.len() ==> (states.contains_key((#[trigger] reported[i]).0)
            ==> states[reported[i].0].visible_area + reported[i].1.visible_area <= usize::MAX)
}

proof fn lemma_merged(
    states: Map<u64, RenderElementState>,
    ids: Seq<(u32, u64, u64)>,
    reported: Seq<(u64, RenderElementState)>,
    id: u64,
)
    requires
        forall|i: int| 0 <= i < reported.len() ==> (#[trigger] reported[i]).0 != id,
    ensures
        merged_states(states, ids, reported).contains_key(id) == states.contains_key(id),
        states.contains_key(id) ==> merged_states(states, ids, reported)[id] == states[id],
    decreases reported.len(),
{
    if reported.len() > 0 {
        let front = reported.drop_last();
        assert forall|i: int| 0 <= i < front.len() implies (#[trigger] front[i]).0 != id by {
            assert(front[i] == reported[i]);
        }
        lemma_merged(states, ids, front, id);
        assert(reported[reported.len() - 1].0 != id);
    }
}

impl FrameRender {
    /// The stand-ins for the elements on overlay planes, which go in front of what is rendered.
    /// There has to be a fresh id for each of them.
    pub fn plane_elements(
        &self,
        core: &Core,
        ids: &mut OverlayPlaneElementIds,
        fresh: &Vec<u64>,
    ) -> (r: Vec<PlaneElement>)
        requires
            self@.wf(core@),
            self@.overlay_elements.len() <= fresh@.len(),
        ensures
            (r@, final(ids).plane_ids@) == stand_ins(
                self@,
                core@,
                old(ids).plane_ids@,
                fresh@,
                self@.overlay_elements.len(),
            ),
    {
        let entries = self.overlay_elements.list();
        let mut elements: Vec<PlaneElement> = Vec::new();
        let mut i: usize = 0;
        while i < entries.len()
            invariant
                i <= entries.len(),
                entries@ == self@.overlay_elements,
                self@.wf(core@),
                entries@.len() <= fresh@.len(),
                (elements@, ids.plane_ids@) == stand_ins(
                    self@,
                    core@,
                    old(ids).plane_ids@,
                    fresh@,
                    i as nat,
                ),
            decreases entries.len() - i,
        {
            let (plane, element) = entries[i];
            assert(self@.overlay_elements[i as int].1 < self@.visible.len());
            let element_id: u64 = self.visible[element].info.id;
            let id: u64 = ids.plane_id_for_element_id(plane, element_id, fresh[i]);
            let underlay = find_z(&core.planes.overlay, plane) < core.primary.z();
            elements.push(PlaneElement { id, element, underlay });
            i = i + 1;
        }
        elements
    }

    /// Whether the renderer's reports can be taken in.
    pub fn can_merge(&self, reported: &Vec<(u64, RenderElementState)>) -> (r: bool)
        ensures
            r == mergeable(self@.states, reported@),
    {
        let mut i: usize = 0;
        while i < reported.len()
            invariant
                i <= reported.len(),
                forall|a: int, b: int|
                    0 <= a < i && a < b < reported@.len() ==> (#[trigger] reported@[a]).0 != (
                    #[trigger] reported@[b]).0,
                forall|a: int|
                    0 <= a < i ==> (self@.states.contains_key((#[trigger] reported@[a]).0)
                        ==> self@.states[reported@[a].0].visible_area + reported@[a].1.visible_area
                        <= usize::MAX),
            decreases reported.len() - i,
        {
            let (id, state) = reported[i];
            assert(reported@[i as int].0 == id);
            let mut j: usize = i + 1;
            while j < reported.len()
                invariant
                    i < j <= reported.len(),
                    reported@[i as int].0 == id,
                    forall|b: int| i < b < j ==> id != (#[trigger] reported@[b]).0,
                decreases reported.len() - j,
            {
                if reported[j].0 == id {
                    assert(reported@[i as int].0 == reported@[j as int].0);
                    return false;
                }
                j = j + 1;
            }
            if let Some(known) = self.states.get(id) {
                if state.visible_area > usize::MAX - known.visible_area {
                    return false;
                }
            }
            i = i + 1;
        }
        true
    }

    /// Takes in what the renderer reports about the elements it drew, each of them once.
    pub fn merge_states(
        &mut self,
        ids: &OverlayPlaneElementIds,
        reported: &Vec<(u64, RenderElementState)>,
    )
        requires
            mergeable(old(self)@.states, reported@),
        ensures
            final(self)@ == (FrameView {
                states: merged_states(old(self)@.states, ids.plane_ids@, reported@),
                ..old(self)@
            }),
    {
        let mut i: usize = 0;
        assert(reported@.take(0) =~= Seq::empty());
        while i < reported.len()
            invariant
                i <= reported.len(),
                mergeable(old(self)@.states, reported@),
                self@ == (FrameView {
                    states: merged_states(
                        old(self)@.states,
                        ids.plane_ids@,
                        reported@.take(i as int),
                    ),
                    ..old(self)@
                }),
            decreases reported.len() - i,
        {
            let (id, state) = reported[i];
            let ghost before = reported@.take(i as int);
            proof {
                assert(reported@.take(i as int + 1).drop_last() =~= before);
                assert forall|j: int| 0 <= j < before.len() implies (#[trigger] before[j]).0 != id by {
                    assert(before[j] == reported@[j]);
                    assert(reported@[i as int].0 == id);
                }
                lemma_merged(old(self)@.states, ids.plane_ids@, before, id);
                assert(reported@[i as int] == (id, state));
            }
            if !ids.contains_plane_id(id) {
                self.states.render(id, state);
            }
            proof {
                assert(self@ =~= (FrameView {
                    states: merged_states(
                        old(self)@.states,
                        ids.plane_ids@,
                        reported@.take(i as int + 1),
                    ),
                    ..old(self)@
                }));
            }
            i = i + 1;
        }
        assert(reported@.take(i as int) =~= reported@);
    }

    /// What the rendering changes about the damage of the primary plane.
    pub fn damage_report(&self, core: &Core, previous: &FrameState, has_damage: bool) -> (r:
        DamageReport)
        ensures
            r == damage_report_spec(previous@, core@.primary.handle, has_damage),
    {
        let had_direct_scanout = match previous.plane_state(core.primary.handle) {
            Some(state) => state.element_state.is_some(),
            None => true,
        };
        if had_direct_scanout {
            DamageReport::WholeOutput
        } else if has_damage {
            DamageReport::Rendered
        } else {
            DamageReport::Nothing
        }
    }

    /// Goes on after the primary plane was rendered.
    pub fn rendered(
        &mut self,
        core: &Core,
        previous: &FrameState,
        report: DamageReport,
        damage_clips: Option<u64>,
        sync: SyncPoint,
    )
        requires
            is_rendered(old(self)@.frame, core@.primary.handle),
        ensures
            final(self)@ == (FrameView {
                frame: with_state(
                    old(self)@.frame,
                    core@.primary.handle,
                    rendered_state(
                        state_of(old(self)@.frame, core@.primary.handle)->0,
                        previous@,
                        core@.primary.handle,
                        report,
                        damage_clips,
                        sync,
                    ),
                ),
                ..old(self)@
            }),
    {
        let handle: u32 = core.primary.handle;
        if let Some(state) = self.frame.plane_state(handle) {
            if let Some(config) = state.config {
                let mut updated = state;
                let mut updated_config = config;
                match report {
                    DamageReport::Rendered => {
                        updated_config.damage_clips = damage_clips;
                        updated_config.sync = Some(PlaneSync { point: sync, fence: None });
                    },
                    DamageReport::WholeOutput => {
                        updated_config.sync = Some(PlaneSync { point: sync, fence: None });
                    },
                    DamageReport::Nothing => {
                        updated.skip = true;
                        if let Some(previous_state) = previous.plane_state(handle) {
                            if let Some(kept) = previous_state.config {
                                updated_config = kept;
                            }
                        }
                    },
                }
                updated.config = Some(updated_config);
                self.frame.set_state(handle, updated);
            }
        }
    }
}

} // verus!
