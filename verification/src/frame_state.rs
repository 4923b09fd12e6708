//! The state of all planes in one frame.

use smallvec::SmallVec;
use vstd::prelude::*;
use crate::buffer::{DrmScanoutBuffer, SyncPoint};
use crate::float::F32;
use crate::geometry::{Rectangle, Transform};
use crate::plane::{PlaneInfo, PlaneProperties, PlaneState, Planes, SrcRect};

verus! {

/// The planes of a frame, kept inline for as many planes as devices usually have.
#[verifier::external_body]
pub struct PlaneVec {
    inner: SmallVec<[(u32, PlaneState); 10]>,
}

/// What a [`PlaneVec`] holds, in order.
pub uninterp spec fn plane_entries(planes: PlaneVec) -> Seq<(u32, PlaneState)>;

/// `SmallVec::new`: the new vector holds nothing.
#[verifier::external_body]
fn planes_new() -> (r: PlaneVec)
    ensures
        plane_entries(r) == Seq::<(u32, PlaneState)>::empty(),
{
    PlaneVec { inner: SmallVec::new() }
}

/// `SmallVec::push`: the item is appended.
#[verifier::external_body]
fn planes_push(planes: &mut PlaneVec, entry: (u32, PlaneState))
    ensures
        plane_entries(*final(planes)) == plane_entries(*old(planes)).push(entry),
{
    planes.inner.push(entry)
}

/// `SmallVec::len`: the number of items held.
#[verifier::external_body]
fn planes_len(planes: &PlaneVec) -> (r: usize)
    ensures
        r == plane_entries(*planes).len(),
{
    planes.inner.len()
}

/// Indexing a `SmallVec`: the item at the position, which has to exist.
#[verifier::external_body]
fn planes_get(planes: &PlaneVec, index: usize) -> (r: (u32, PlaneState))
    requires
        index < plane_entries(*planes).len(),
    ensures
        r == plane_entries(*planes)[index as int],
{
    planes.inner[index]
}

/// Assigning to an index of a `SmallVec`: the item at the position, which has to exist, is
/// replaced and all others stay.
#[verifier::external_body]
fn planes_set(planes: &mut PlaneVec, index: usize, entry: (u32, PlaneState))
    requires
        index < plane_entries(*old(planes)).len(),
    ensures
        plane_entries(*final(planes)) == plane_entries(*old(planes)).update(index as int, entry),
{
    planes.inner[index] = entry;
}

/// The position of the first entry for the plane, or the length where there is none.
pub open spec fn index_of(entries: Seq<(u32, PlaneState)>, handle: u32) -> int
    decreases entries.len(),
{
    if entries.len() == 0 {
        0
    } else if entries[0].0 == handle {
        0
    } else {
        1 + index_of(entries.skip(1), handle)
    }
}

/// Whether the frame has an entry for the plane.
pub open spec fn knows(entries: Seq<(u32, PlaneState)>, handle: u32) -> bool {
    index_of(entries, handle) < entries.len()
}

/// The state the frame gives the plane.
pub open spec fn state_of(entries: Seq<(u32, PlaneState)>, handle: u32) -> Option<PlaneState> {
    if knows(entries, handle) {
        Some(entries[index_of(entries, handle)].1)
    } else {
        None
    }
}

/// The frame with another state for one plane; unknown planes are ignored.
pub open spec fn with_state(
    entries: Seq<(u32, PlaneState)>,
    handle: u32,
    state: PlaneState,
) -> Seq<(u32, PlaneState)> {
    if knows(entries, handle) {
        entries.update(index_of(entries, handle), (handle, state))
    } else {
        entries
    }
}

/// Whether the frame shows something on the plane.
pub open spec fn assigned(entries: Seq<(u32, PlaneState)>, handle: u32) -> bool {
    state_of(entries, handle) matches Some(state) && state.config.is_some()
}

/// Whether what the frame shows on the plane overlaps the geometry.
pub open spec fn plane_overlaps(
    entries: Seq<(u32, PlaneState)>,
    handle: u32,
    geometry: Rectangle,
) -> bool {
    state_of(entries, handle) matches Some(state) && (state.config matches Some(config)
        && config.properties.dst.overlaps_spec(geometry))
}

pub open spec fn idle_entries(planes: Seq<PlaneInfo>) -> Seq<(u32, PlaneState)> {
    planes.map_values(|info: PlaneInfo| (info.handle, PlaneState::idle()))
}

/// The frame after every missing plane of the list was appended, idle.
pub open spec fn with_planes(
    entries: Seq<(u32, PlaneState)>,
    planes: Seq<PlaneInfo>,
) -> Seq<(u32, PlaneState)>
    decreases planes.len(),
{
    if planes.len() == 0 {
        entries
    } else {
        let before = with_planes(entries, planes.drop_last());
        if knows(before, planes.last().handle) {
            before
        } else {
            before.push((planes.last().handle, PlaneState::idle()))
        }
    }
}

/// The frame with no plane waiting for a test.
pub open spec fn all_tested(entries: Seq<(u32, PlaneState)>) -> Seq<(u32, PlaneState)> {
    entries.map_values(
        |entry: (u32, PlaneState)| (entry.0, PlaneState { needs_test: false, ..entry.1 }),
    )
}

/// The frame in which every plane is updated that the previous one used.
pub open spec fn with_resets(
    entries: Seq<(u32, PlaneState)>,
    previous: Seq<(u32, PlaneState)>,
) -> Seq<(u32, PlaneState)> {
    entries.map_values(
        |entry: (u32, PlaneState)|
            (
                entry.0,
                PlaneState { skip: entry.1.skip && !assigned(previous, entry.0), ..entry.1 },
            ),
    )
}

/// Whether some plane still has to be tested.
pub open spec fn any_needs_test(entries: Seq<(u32, PlaneState)>) -> bool {
    exists|i: int| 0 <= i < entries.len() && (#[trigger] entries[i]).1.needs_test
}

/// Whether the previous frame has a compatible state for every plane of this one.
pub open spec fn fully_compatible(
    entries: Seq<(u32, PlaneState)>,
    previous: Seq<(u32, PlaneState)>,
) -> bool {
    forall|i: int|
        0 <= i < entries.len() ==> (state_of(previous, (#[trigger] entries[i]).0) matches Some(other)
            && entries[i].1.compatible(other))
}

/// Whether a complete test can be left out.
pub open spec fn test_skippable(
    entries: Seq<(u32, PlaneState)>,
    previous: Seq<(u32, PlaneState)>,
    allow_partial_update: bool,
) -> bool {
    allow_partial_update && (!any_needs_test(entries) || fully_compatible(entries, previous))
}

/// Whether the entry waits for a native fence.
pub open spec fn wants_fence(entry: (u32, PlaneState)) -> bool {
    !entry.1.skip && (entry.1.config matches Some(config) && (config.sync matches Some(sync)
        && sync.fence.is_none()))
}

/// The entry with the fence stored at its synchronization point, where it has one.
pub open spec fn with_fence(entry: (u32, PlaneState), fence: Option<u64>) -> (u32, PlaneState) {
    match entry.1.config {
        Some(config) => match config.sync {
            Some(sync) => (
                entry.0,
                PlaneState {
                    config: Some(
                        crate::plane::PlaneConfig {
                            sync: Some(crate::buffer::PlaneSync { fence, ..sync }),
                            ..config
                        },
                    ),
                    ..entry.1
                },
            ),
            None => entry,
        },
        None => entry,
    }
}

/// Whether an update has to name the plane: in a partial update every plane that changed or is
/// in use, in a full one every plane that is in use or could be claimed.
pub open spec fn is_sent(
    entry: (u32, PlaneState),
    allow_partial_update: bool,
    claimed: Seq<u32>,
) -> bool {
    if allow_partial_update {
        !entry.1.skip || entry.1.config.is_some()
    } else {
        entry.1.config.is_some() || claimed.contains(entry.0)
    }
}

/// The state of a plane as the surface takes it.
#[derive(Clone, Copy, Debug, PartialEq, Eq, Structural)]
pub struct SurfacePlaneState {
    pub handle: u32,
    pub config: Option<SurfacePlaneConfig>,
}

#[derive(Clone, Copy, Debug, PartialEq, Eq, Structural)]
pub struct SurfacePlaneConfig {
    pub src: SrcRect,
    pub dst: Rectangle,
    pub transform: Transform,
    pub alpha: F32,
    pub damage_clips: Option<u64>,
    pub fb: u32,
    pub fence: Option<u64>,
}

pub open spec fn surface_state(entry: (u32, PlaneState)) -> SurfacePlaneState {
    SurfacePlaneState {
        handle: entry.0,
        config: match entry.1.config {
            Some(config) => Some(
                SurfacePlaneConfig {
                    src: config.properties.src,
                    dst: config.properties.dst,
                    transform: config.properties.transform,
                    alpha: config.properties.alpha,
                    damage_clips: config.damage_clips,
                    fb: config.buffer.fb.handle_spec(),
                    fence: match config.sync {
                        Some(sync) => sync.fence,
                        None => None,
                    },
                },
            ),
            None => None,
        },
    }
}

/// The update for the surface: the planes that are sent, in the order of the frame.
pub open spec fn built_planes(
    entries: Seq<(u32, PlaneState)>,
    allow_partial_update: bool,
    claimed: Seq<u32>,
) -> Seq<SurfacePlaneState>
    decreases entries.len(),
{
    if entries.len() == 0 {
        Seq::empty()
    } else {
        let before = built_planes(entries.drop_last(), allow_partial_update, claimed);
        if is_sent(entries.last(), allow_partial_update, claimed) {
            before.push(surface_state(entries.last()))
        } else {
            before
        }
    }
}

proof fn lemma_first(entries: Seq<(u32, PlaneState)>, handle: u32, i: int)
    requires
        0 <= i <= entries.len(),
        i < entries.len() ==> entries[i].0 == handle,
        forall|j: int| 0 <= j < i ==> (#[trigger] entries[j]).0 != handle,
    ensures
        index_of(entries, handle) == i,
    decreases entries.len(),
{
    if entries.len() > 0 && entries[0].0 != handle {
        let rest = entries.skip(1);
        assert forall|j: int| 0 <= j < i - 1 implies (#[trigger] rest[j]).0 != handle by {
            assert(rest[j] == entries[j + 1]);
        }
        lemma_first(rest, handle, i - 1);
    }
}

/// What the position of a plane in a frame means: no earlier entry is for the plane, and where the
/// frame has an entry for it, that is the one.
pub proof fn index_is_the_first_entry(entries: Seq<(u32, PlaneState)>, handle: u32)
    ensures
        0 <= index_of(entries, handle) <= entries.len(),
        forall|j: int| 0 <= j < index_of(entries, handle) ==> (#[trigger] entries[j]).0 != handle,
        knows(entries, handle) ==> entries[index_of(entries, handle)].0 == handle,
    decreases entries.len(),
{
    if entries.len() > 0 && entries[0].0 != handle {
        let rest = entries.skip(1);
        index_is_the_first_entry(rest, handle);
        assert forall|j: int| 0 <= j < index_of(entries, handle) implies (#[trigger] entries[j]).0
            != handle by {
            if j > 0 {
                assert(entries[j] == rest[j - 1]);
            }
        }
    }
}

/// Setting the state of one plane changes that plane and no other, and keeps the order of planes.
pub proof fn set_state_changes_one_plane(
    entries: Seq<(u32, PlaneState)>,
    handle: u32,
    state: PlaneState,
    other: u32,
)
    ensures
        state_of(with_state(entries, handle, state), other) == (if other == handle && knows(
            entries,
            handle,
        ) {
            Some(state)
        } else {
            state_of(entries, other)
        }),
        with_state(entries, handle, state).len() == entries.len(),
        index_of(with_state(entries, handle, state), other) == index_of(entries, other),
{
    index_is_the_first_entry(entries, handle);
    index_is_the_first_entry(entries, other);
    let updated = with_state(entries, handle, state);
    assert forall|j: int| 0 <= j < index_of(entries, other) implies (#[trigger] updated[j]).0
        != other by {
        assert(entries[j].0 != other);
    }
    lemma_first(updated, other, index_of(entries, other));
}

/// A state that was set and then taken back leaves the frame as it was.
pub proof fn restoring_undoes_a_change(
    entries: Seq<(u32, PlaneState)>,
    handle: u32,
    state: PlaneState,
)
    requires
        knows(entries, handle),
    ensures
        with_state(
            with_state(entries, handle, state),
            handle,
            state_of(entries, handle).unwrap(),
        ) == entries,
{
    index_is_the_first_entry(entries, handle);
    set_state_changes_one_plane(entries, handle, state, handle);
    assert(with_state(
        with_state(entries, handle, state),
        handle,
        state_of(entries, handle).unwrap(),
    ) =~= entries);
}

/// Adding planes keeps the entries that are there, makes every listed plane known, and gives no
/// plane a configuration.
pub proof fn adding_planes_keeps_the_frame(
    entries: Seq<(u32, PlaneState)>,
    planes: Seq<PlaneInfo>,
)
    ensures
        entries.is_prefix_of(with_planes(entries, planes)),
        forall|i: int|
            0 <= i < planes.len() ==> knows(with_planes(entries, planes), (#[trigger] planes[i]).handle),
        forall|h: u32| knows(entries, h) ==> #[trigger] state_of(with_planes(entries, planes), h)
            == state_of(entries, h),
        forall|h: u32| #[trigger] assigned(with_planes(entries, planes), h) == assigned(entries, h),
    decreases planes.len(),
{
    if planes.len() > 0 {
        adding_planes_keeps_the_frame(entries, planes.drop_last());
        let before = with_planes(entries, planes.drop_last());
        let after = with_planes(entries, planes);
        let last = planes.last();
        assert forall|h: u32| #[trigger] state_of(after, h) == (if knows(before, h) {
            state_of(before, h)
        } else if h == last.handle {
            Some(PlaneState::idle())
        } else {
            None
        }) by {
            index_is_the_first_entry(before, h);
            if !knows(before, last.handle) {
                lemma_index_after_push(before, (last.handle, PlaneState::idle()), h);
            }
        }
        assert forall|h: u32| #[trigger] assigned(after, h) == assigned(entries, h) by {
            assert(assigned(before, h) == assigned(entries, h));
            assert(state_of(after, h) == state_of(after, h));
        }
        assert forall|h: u32| knows(entries, h) implies #[trigger] state_of(after, h) == state_of(
            entries,
            h,
        ) by {
            assert(state_of(before, h) == state_of(entries, h));
        }
        assert(state_of(after, last.handle).is_some());
        assert forall|i: int| 0 <= i < planes.len() implies knows(
            after,
            (#[trigger] planes[i]).handle,
        ) by {
            if i < planes.len() - 1 {
                assert(planes.drop_last()[i] == planes[i]);
                assert(knows(before, planes[i].handle));
                assert(state_of(after, planes[i].handle).is_some());
            }
        }
    }
}

/// Adding planes that are there changes nothing, so adding planes twice is adding them once.
pub proof fn adding_known_planes_changes_nothing(
    entries: Seq<(u32, PlaneState)>,
    planes: Seq<PlaneInfo>,
)
    ensures
        with_planes(with_planes(entries, planes), planes) == with_planes(entries, planes),
{
    adding_planes_keeps_the_frame(entries, planes);
    lemma_all_known(with_planes(entries, planes), planes, planes.len());
    assert(planes.take(planes.len() as int) =~= planes);
}

proof fn lemma_all_known(entries: Seq<(u32, PlaneState)>, planes: Seq<PlaneInfo>, upto: nat)
    requires
        upto <= planes.len(),
        forall|i: int| 0 <= i < planes.len() ==> knows(entries, (#[trigger] planes[i]).handle),
    ensures
        with_planes(entries, planes.take(upto as int)) == entries,
    decreases upto,
{
    if upto > 0 {
        lemma_all_known(entries, planes, (upto - 1) as nat);
        let some = planes.take(upto as int);
        assert(some.drop_last() =~= planes.take(upto - 1));
        assert(some.last() == planes[upto - 1]);
    }
}

proof fn lemma_index_after_push(
    entries: Seq<(u32, PlaneState)>,
    entry: (u32, PlaneState),
    handle: u32,
)
    ensures
        index_of(entries.push(entry), handle) == (if knows(entries, handle) || entry.0 == handle {
            index_of(entries, handle)
        } else {
            entries.len() as int + 1
        }),
{
    index_is_the_first_entry(entries, handle);
    let pushed = entries.push(entry);
    let i = if knows(entries, handle) || entry.0 == handle {
        index_of(entries, handle)
    } else {
        entries.len() as int + 1
    };
    assert forall|j: int| 0 <= j < i implies (#[trigger] pushed[j]).0 != handle by {
        if j < entries.len() {
            assert(entries[j].0 != handle);
        }
    }
    lemma_first(pushed, handle, i);
}

/// The planes of a frame with the state each of them gets.
pub struct FrameState {
    pub planes: PlaneVec,
}

impl View for FrameState {
    type V = Seq<(u32, PlaneState)>;

    open spec fn view(&self) -> Seq<(u32, PlaneState)> {
        plane_entries(self.planes)
    }
}

impl FrameState {
    /// The number of planes.
    pub fn len(&self) -> (r: usize)
        ensures
            r == self@.len(),
    {
        planes_len(&self.planes)
    }

    /// The plane at a position, with its state.
    pub fn entry(&self, index: usize) -> (r: (u32, PlaneState))
        requires
            index < self@.len(),
        ensures
            r == self@[index as int],
    {
        planes_get(&self.planes, index)
    }

    /// Gives the plane at a position another state.
    pub fn set_entry(&mut self, index: usize, state: PlaneState)
        requires
            index < old(self)@.len(),
        ensures
            final(self)@ == old(self)@.update(index as int, (old(self)@[index as int].0, state)),
    {
        let handle: u32 = planes_get(&self.planes, index).0;
        planes_set(&mut self.planes, index, (handle, state));
    }

    /// A copy of the frame.
    pub fn duplicate(&self) -> (r: FrameState)
        ensures
            r@ == self@,
    {
        let mut planes = planes_new();
        let n: usize = planes_len(&self.planes);
        let mut i: usize = 0;
        while i < n
            invariant
                i <= n,
                n == self@.len(),
                plane_entries(planes) == self@.take(i as int),
            decreases n - i,
        {
            let entry = planes_get(&self.planes, i);
            planes_push(&mut planes, entry);
            assert(self@.take(i as int).push(self@[i as int]) =~= self@.take(i as int + 1));
            i = i + 1;
        }
        assert(self@.take(n as int) =~= self@);
        FrameState { planes }
    }

    fn find(&self, handle: u32) -> (r: Option<usize>)
        ensures
            r.is_some() == knows(self@, handle),
            r matches Some(i) ==> i == index_of(self@, handle),
    {
        let n: usize = planes_len(&self.planes);
        let mut i: usize = 0;
        while i < n
            invariant
                i <= n,
                n == self@.len(),
                forall|j: int| 0 <= j < i ==> (#[trigger] self@[j]).0 != handle,
            decreases n - i,
        {
            if planes_get(&self.planes, i).0 == handle {
                proof {
                    lemma_first(self@, handle, i as int);
                }
                return Some(i);
            }
            i = i + 1;
        }
        proof {
            lemma_first(self@, handle, n as int);
        }
        None
    }

    /// The state the frame gives a plane.
    pub fn plane_state(&self, handle: u32) -> (r: Option<PlaneState>)
        ensures
            r == state_of(self@, handle),
    {
        match self.find(handle) {
            Some(i) => Some(planes_get(&self.planes, i).1),
            None => None,
        }
    }

    /// Whether the frame shows something on a plane.
    pub fn is_assigned(&self, handle: u32) -> (r: bool)
        ensures
            r == assigned(self@, handle),
    {
        match self.plane_state(handle) {
            Some(state) => state.config.is_some(),
            None => false,
        }
    }

    /// Whether what the frame shows on a plane overlaps the geometry.
    pub fn overlaps(&self, handle: u32, element_geometry: Rectangle) -> (r: bool)
        ensures
            r == plane_overlaps(self@, handle, element_geometry),
    {
        match self.plane_state(handle) {
            Some(state) => match state.config {
                Some(config) => config.properties.dst.overlaps(element_geometry),
                None => false,
            },
            None => false,
        }
    }

    /// How the frame shows what is on a plane.
    pub fn plane_properties(&self, handle: u32) -> (r: Option<PlaneProperties>)
        ensures
            r == (match state_of(self@, handle) {
                Some(state) => match state.config {
                    Some(config) => Some(config.properties),
                    None => None,
                },
                None => None,
            }),
    {
        match self.plane_state(handle) {
            Some(state) => match state.config {
                Some(config) => Some(config.properties),
                None => None,
            },
            None => None,
        }
    }

    /// The buffer that the frame shows on a plane.
    pub fn plane_buffer(&self, handle: u32) -> (r: Option<DrmScanoutBuffer>)
        ensures
            r == (match state_of(self@, handle) {
                Some(state) => state.buffer_spec(),
                None => None,
            }),
    {
        match self.plane_state(handle) {
            Some(state) => state.buffer(),
            None => None,
        }
    }

    /// A frame in which no plane does anything.
    pub fn from_planes(primary_plane: u32, planes: &Planes, include_cursor_planes: bool) -> (r: FrameState)
        ensures
            r@ == seq![(primary_plane, PlaneState::idle())] + (if include_cursor_planes {
                idle_entries(planes.cursor@)
            } else {
                Seq::empty()
            }) + idle_entries(planes.overlay@),
    {
        let mut entries = planes_new();
        planes_push(&mut entries, (primary_plane, PlaneState::default()));
        let ghost first = seq![(primary_plane, PlaneState::idle())];
        assert(plane_entries(entries) =~= first);
        let ghost mut middle = Seq::<(u32, PlaneState)>::empty();
        if include_cursor_planes {
            let mut i: usize = 0;
            while i < planes.cursor.len()
                invariant
                    i <= planes.cursor.len(),
                    plane_entries(entries) == first + idle_entries(planes.cursor@).take(i as int),
                decreases planes.cursor.len() - i,
            {
                planes_push(&mut entries, (planes.cursor[i].handle, PlaneState::default()));
                assert(plane_entries(entries) =~= first + idle_entries(planes.cursor@).take(
                    i as int + 1,
                ));
                i = i + 1;
            }
            proof {
                middle = idle_entries(planes.cursor@);
            }
            assert(middle.take(planes.cursor@.len() as int) =~= middle);
        }
        assert(plane_entries(entries) =~= first + middle);
        let mut i: usize = 0;
        while i < planes.overlay.len()
            invariant
                i <= planes.overlay.len(),
                plane_entries(entries) == first + middle + idle_entries(planes.overlay@).take(
                    i as int,
                ),
            decreases planes.overlay.len() - i,
        {
            planes_push(&mut entries, (planes.overlay[i].handle, PlaneState::default()));
            assert(plane_entries(entries) =~= first + middle + idle_entries(planes.overlay@).take(
                i as int + 1,
            ));
            i = i + 1;
        }
        assert(idle_entries(planes.overlay@).take(planes.overlay@.len() as int) =~= idle_entries(
            planes.overlay@,
        ));
        FrameState { planes: entries }
    }

    /// Appends the cursor planes that the frame does not know yet.
    pub fn add_cursor_planes(&mut self, planes: &Planes)
        ensures
            final(self)@ == with_planes(old(self)@, planes.cursor@),
    {
        let mut i: usize = 0;
        while i < planes.cursor.len()
            invariant
                i <= planes.cursor.len(),
                self@ == with_planes(old(self)@, planes.cursor@.take(i as int)),
            decreases planes.cursor.len() - i,
        {
            let handle: u32 = planes.cursor[i].handle;
            if self.find(handle).is_none() {
                planes_push(&mut self.planes, (handle, PlaneState::default()));
            }
            assert(planes.cursor@.take(i as int + 1).drop_last() =~= planes.cursor@.take(i as int));
            i = i + 1;
        }
        assert(planes.cursor@.take(planes.cursor@.len() as int) =~= planes.cursor@);
    }

    /// Gives a plane another state; planes the frame does not know are ignored.
    pub fn set_state(&mut self, plane: u32, state: PlaneState)
        ensures
            final(self)@ == with_state(old(self)@, plane, state),
    {
        if let Some(i) = self.find(plane) {
            planes_set(&mut self.planes, i, (plane, state));
        }
    }

    /// Gives a plane another state that is to be tested. Hands back the state to restore should
    /// the test fail, or nothing where the frame does not know the plane and no test is needed.
    pub fn begin_test(&mut self, plane: u32, state: PlaneState) -> (r: Option<PlaneState>)
        ensures
            final(self)@ == with_state(old(self)@, plane, state),
            r == state_of(old(self)@, plane),
    {
        match self.find(plane) {
            Some(i) => {
                let backup = planes_get(&self.planes, i).1;
                planes_set(&mut self.planes, i, (plane, state));
                Some(backup)
            },
            None => None,
        }
    }

    /// Ends a test: a state that failed gives way to the one before, a state that passed needs no
    /// further test on any plane.
    pub fn finish_test(&mut self, plane: u32, backup: PlaneState, passed: bool)
        ensures
            final(self)@ == (if passed {
                all_tested(old(self)@)
            } else {
                with_state(old(self)@, plane, backup)
            }),
    {
        if passed {
            self.mark_tested();
        } else {
            self.set_state(plane, backup);
        }
    }

    /// Notes that no plane needs a test any more.
    pub fn mark_tested(&mut self)
        ensures
            final(self)@ == all_tested(old(self)@),
    {
        let n: usize = planes_len(&self.planes);
        let mut i: usize = 0;
        while i < n
            invariant
                i <= n,
                n == self@.len(),
                self@.len() == old(self)@.len(),
                forall|j: int| 0 <= j < i ==> self@[j] == all_tested(old(self)@)[j],
                forall|j: int| i <= j < n ==> self@[j] == old(self)@[j],
            decreases n - i,
        {
            let entry = planes_get(&self.planes, i);
            planes_set(
                &mut self.planes,
                i,
                (entry.0, PlaneState { needs_test: false, ..entry.1 }),
            );
            i = i + 1;
        }
        assert(self@ =~= all_tested(old(self)@));
    }

    /// Whether a test of the complete frame can be left out: a partial update needs none where
    /// nothing is untested, or where every plane stays compatible with the previous frame.
    pub fn skips_complete_test(&self, previous_frame: &FrameState, allow_partial_update: bool) -> (r: bool)
        ensures
            r == test_skippable(self@, previous_frame@, allow_partial_update),
    {
        if !allow_partial_update {
            return false;
        }
        let n: usize = planes_len(&self.planes);
        let mut needs_test = false;
        let mut compatible = true;
        let mut i: usize = 0;
        while i < n
            invariant
                i <= n,
                n == self@.len(),
                needs_test == any_needs_test(self@.take(i as int)),
                compatible == fully_compatible(self@.take(i as int), previous_frame@),
            decreases n - i,
        {
            let entry = planes_get(&self.planes, i);
            let ghost before = self@.take(i as int);
            let ghost after = self@.take(i as int + 1);
            let entry_compatible = match previous_frame.plane_state(entry.0) {
                Some(other) => entry.1.is_compatible(&other),
                None => false,
            };
            proof {
                assert(after.drop_last() =~= before);
                assert(after[i as int] == entry);
                assert forall|j: int| 0 <= j < i implies before[j] == after[j] by {}
                if any_needs_test(before) {
                    let j = choose|j: int| 0 <= j < before.len() && (#[trigger] before[j]).1.needs_test;
                    assert(after[j].1.needs_test);
                }
                if any_needs_test(after) && !entry.1.needs_test {
                    let j = choose|j: int| 0 <= j < after.len() && (#[trigger] after[j]).1.needs_test;
                    assert(before[j].1.needs_test);
                }
                if fully_compatible(after, previous_frame@) {
                    assert forall|j: int| 0 <= j < before.len() implies (state_of(
                        previous_frame@,
                        (#[trigger] before[j]).0,
                    ) matches Some(other) && before[j].1.compatible(other)) by {
                        assert(after[j] == before[j]);
                    }
                }
                if fully_compatible(before, previous_frame@) && entry_compatible {
                    assert forall|j: int| 0 <= j < after.len() implies (state_of(
                        previous_frame@,
                        (#[trigger] after[j]).0,
                    ) matches Some(other) && after[j].1.compatible(other)) by {
                        if j < i {
                            assert(after[j] == before[j]);
                        }
                    }
                }
            }
            if entry.1.needs_test {
                needs_test = true;
            }
            if !entry_compatible {
                compatible = false;
            }
            i = i + 1;
        }
        assert(self@.take(n as int) =~= self@);
        !needs_test || compatible
    }

    /// The positions of the planes that wait for a native fence, with what to export it from. A
    /// surface without support for fences gets none.
    pub fn fences_to_export(&self, supports_fencing: bool) -> (r: Vec<(usize, SyncPoint)>)
        ensures
            !supports_fencing ==> r@.len() == 0,
            supports_fencing ==> r@ == fence_requests(self@),
            forall|k: int| 0 <= k < r@.len() ==> (#[trigger] r@[k]).0 < self@.len(),
    {
        let mut requests: Vec<(usize, SyncPoint)> = Vec::new();
        if !supports_fencing {
            return requests;
        }
        let n: usize = planes_len(&self.planes);
        let mut i: usize = 0;
        while i < n
            invariant
                i <= n,
                n == self@.len(),
                requests@ == fence_requests(self@.take(i as int)),
            decreases n - i,
        {
            let state = planes_get(&self.planes, i).1;
            assert(self@.take(i as int + 1).drop_last() =~= self@.take(i as int));
            if !state.skip {
                if let Some(config) = state.config {
                    if let Some(sync) = config.sync {
                        if sync.fence.is_none() {
                            requests.push((i, sync.point));
                        }
                    }
                }
            }
            i = i + 1;
        }
        assert(self@.take(n as int) =~= self@);
        proof {
            assert forall|k: int| 0 <= k < requests@.len() implies (#[trigger] requests@[k]).0
                < self@.len() by {
                lemma_requests(self@, k);
            }
        }
        requests
    }

    /// Stores the native fence that was exported for a plane, if there was one.
    pub fn store_fence(&mut self, index: usize, fence: Option<u64>)
        requires
            index < old(self)@.len(),
        ensures
            final(self)@ == old(self)@.update(
                index as int,
                with_fence(old(self)@[index as int], fence),
            ),
            fenced(old(self)@, final(self)@),
    {
        let entry = planes_get(&self.planes, index);
        let mut state = entry.1;
        if let Some(config) = entry.1.config {
            if let Some(sync) = config.sync {
                let mut stored = config;
                stored.sync = Some(crate::buffer::PlaneSync { fence, ..sync });
                state.config = Some(stored);
            }
        }
        planes_set(&mut self.planes, index, (entry.0, state));
        assert forall|i: int| 0 <= i < old(self)@.len() implies entry_fenced(
            #[trigger] old(self)@[i],
            self@[i],
        ) by {
            if i == index {
                assert(self@[i] == with_fence(old(self)@[i], fence));
            }
        }
    }

    /// The planes that a full update resets if they can be claimed. A partial update resets none.
    pub fn planes_to_claim(&self, allow_partial_update: bool) -> (r: Vec<u32>)
        ensures
            allow_partial_update ==> r@.len() == 0,
            !allow_partial_update ==> r@ == unused_planes(self@),
    {
        let mut handles: Vec<u32> = Vec::new();
        if allow_partial_update {
            return handles;
        }
        let n: usize = planes_len(&self.planes);
        let mut i: usize = 0;
        while i < n
            invariant
                i <= n,
                n == self@.len(),
                handles@ == unused_planes(self@.take(i as int)),
            decreases n - i,
        {
            let entry = planes_get(&self.planes, i);
            assert(self@.take(i as int + 1).drop_last() =~= self@.take(i as int));
            if entry.1.config.is_none() {
                handles.push(entry.0);
            }
            i = i + 1;
        }
        assert(self@.take(n as int) =~= self@);
        handles
    }

    /// The update for the surface, given the unused planes that could be claimed.
    pub fn build_planes(&self, allow_partial_update: bool, claimed: &Vec<u32>) -> (r: Vec<SurfacePlaneState>)
        ensures
            r@ == built_planes(self@, allow_partial_update, claimed@),
    {
        let mut updates: Vec<SurfacePlaneState> = Vec::new();
        let n: usize = planes_len(&self.planes);
        let mut i: usize = 0;
        while i < n
            invariant
                i <= n,
                n == self@.len(),
                updates@ == built_planes(self@.take(i as int), allow_partial_update, claimed@),
            decreases n - i,
        {
            let entry = planes_get(&self.planes, i);
            assert(self@.take(i as int + 1).drop_last() =~= self@.take(i as int));
            let sent = if allow_partial_update {
                !entry.1.skip || entry.1.config.is_some()
            } else {
                entry.1.config.is_some() || contains_handle(claimed, entry.0)
            };
            if sent {
                let config = match entry.1.config {
                    Some(config) => Some(
                        SurfacePlaneConfig {
                            src: config.properties.src,
                            dst: config.properties.dst,
                            transform: config.properties.transform,
                            alpha: config.properties.alpha,
                            damage_clips: config.damage_clips,
                            fb: config.buffer.fb.handle(),
                            fence: match config.sync {
                                Some(sync) => sync.fence,
                                None => None,
                            },
                        },
                    ),
                    None => None,
                };
                updates.push(SurfacePlaneState { handle: entry.0, config });
            }
            i = i + 1;
        }
        assert(self@.take(n as int) =~= self@);
        updates
    }

    /// Makes sure that every plane is updated that the previous frame used, so that it is taken off
    /// the screen if nothing else happens to it.
    pub fn mark_resets(&mut self, previous: &FrameState)
        ensures
            final(self)@ == with_resets(old(self)@, previous@),
    {
        let n: usize = planes_len(&self.planes);
        let mut i: usize = 0;
        while i < n
            invariant
                i <= n,
                n == self@.len(),
                self@.len() == old(self)@.len(),
                forall|j: int| 0 <= j < i ==> self@[j] == with_resets(old(self)@, previous@)[j],
                forall|j: int| i <= j < n ==> self@[j] == old(self)@[j],
            decreases n - i,
        {
            let entry = planes_get(&self.planes, i);
            if previous.is_assigned(entry.0) {
                planes_set(&mut self.planes, i, (entry.0, PlaneState { skip: false, ..entry.1 }));
            }
            i = i + 1;
        }
        assert(self@ =~= with_resets(old(self)@, previous@));
    }

    /// Makes every plane idle.
    pub fn reset(&mut self)
        ensures
            final(self)@ == old(self)@.map_values(
                |entry: (u32, PlaneState)| (entry.0, PlaneState::idle()),
            ),
    {
        let n: usize = planes_len(&self.planes);
        let mut i: usize = 0;
        let ghost idle = old(self)@.map_values(
            |entry: (u32, PlaneState)| (entry.0, PlaneState::idle()),
        );
        while i < n
            invariant
                i <= n,
                n == self@.len(),
                self@.len() == old(self)@.len(),
                idle == old(self)@.map_values(
                    |entry: (u32, PlaneState)| (entry.0, PlaneState::idle()),
                ),
                forall|j: int| 0 <= j < i ==> self@[j] == idle[j],
                forall|j: int| i <= j < n ==> self@[j] == old(self)@[j],
            decreases n - i,
        {
            let entry = planes_get(&self.planes, i);
            planes_set(&mut self.planes, i, (entry.0, PlaneState::default()));
            i = i + 1;
        }
        assert(self@ =~= idle);
    }
}

/// The planes that wait for a fence, each with its synchronization point.
pub open spec fn fence_requests(entries: Seq<(u32, PlaneState)>) -> Seq<(usize, SyncPoint)>
    decreases entries.len(),
{
    if entries.len() == 0 {
        Seq::empty()
    } else {
        let before = fence_requests(entries.drop_last());
        if wants_fence(entries.last()) {
            before.push(
                (
                    (entries.len() - 1) as usize,
                    entries.last().1.config.unwrap().sync.unwrap().point,
                ),
            )
        } else {
            before
        }
    }
}

/// The planes without a configuration, in the order of the frame.
pub open spec fn unused_planes(entries: Seq<(u32, PlaneState)>) -> Seq<u32>
    decreases entries.len(),
{
    if entries.len() == 0 {
        Seq::empty()
    } else {
        let before = unused_planes(entries.drop_last());
        if entries.last().1.config.is_none() {
            before.push(entries.last().0)
        } else {
            before
        }
    }
}

/// Whether an entry is another one with a fence stored at its synchronization point.
pub open spec fn entry_fenced(before: (u32, PlaneState), after: (u32, PlaneState)) -> bool {
    after == before || exists|fence: Option<u64>| after == #[trigger] with_fence(before, fence)
}

/// Whether a frame is another one with nothing but fences stored.
pub open spec fn fenced(
    before: Seq<(u32, PlaneState)>,
    after: Seq<(u32, PlaneState)>,
) -> bool {
    before.len() == after.len() && forall|i: int|
        0 <= i < before.len() ==> entry_fenced(#[trigger] before[i], after[i])
}

/// Storing fences one after the other is storing fences.
pub proof fn fences_add_up(
    a: Seq<(u32, PlaneState)>,
    b: Seq<(u32, PlaneState)>,
    c: Seq<(u32, PlaneState)>,
)
    requires
        fenced(a, b),
        fenced(b, c),
    ensures
        fenced(a, c),
{
    assert forall|i: int| 0 <= i < a.len() implies entry_fenced(#[trigger] a[i], c[i]) by {
        assert(entry_fenced(a[i], b[i]));
        assert(entry_fenced(b[i], c[i]));
        if c[i] != b[i] && b[i] != a[i] {
            let f = choose|fence: Option<u64>| b[i] == #[trigger] with_fence(a[i], fence);
            let g = choose|fence: Option<u64>| c[i] == #[trigger] with_fence(b[i], fence);
            assert(c[i] == with_fence(a[i], g));
        }
    }
}

/// Storing fences changes neither which planes a frame has nor what they show.
pub proof fn fences_change_nothing_else(
    before: Seq<(u32, PlaneState)>,
    after: Seq<(u32, PlaneState)>,
    handle: u32,
)
    requires
        fenced(before, after),
    ensures
        index_of(after, handle) == index_of(before, handle),
        assigned(after, handle) == assigned(before, handle),
        knows(before, handle) ==> {
            &&& state_of(after, handle)->0.buffer_spec() == state_of(before, handle)->0.buffer_spec()
            &&& state_of(after, handle)->0.element_state == state_of(before, handle)->0.element_state
            &&& state_of(after, handle)->0.skip == state_of(before, handle)->0.skip
        },
        forall|geometry: Rectangle| #[trigger]
            plane_overlaps(after, handle, geometry) == plane_overlaps(before, handle, geometry),
{
    index_is_the_first_entry(before, handle);
    let i = index_of(before, handle);
    assert forall|j: int| 0 <= j < i implies (#[trigger] after[j]).0 != handle by {
        assert(before[j].0 != handle);
        assert(entry_fenced(before[j], after[j]));
    }
    if i < before.len() {
        assert(entry_fenced(before[i], after[i]));
    }
    lemma_first(after, handle, i);
}

proof fn lemma_requests(entries: Seq<(u32, PlaneState)>, k: int)
    requires
        entries.len() <= usize::MAX,
        0 <= k < fence_requests(entries).len(),
    ensures
        fence_requests(entries)[k].0 < entries.len(),
    decreases entries.len(),
{
    let front = entries.drop_last();
    if k < fence_requests(front).len() {
        lemma_requests(front, k);
    }
}

fn contains_handle(handles: &Vec<u32>, handle: u32) -> (r: bool)
    ensures
        r == handles@.contains(handle),
{
    let mut i: usize = 0;
    while i < handles.len()
        invariant
            i <= handles.len(),
            forall|j: int| 0 <= j < i ==> handles@[j] != handle,
        decreases handles.len() - i,
    {
        if handles[i] == handle {
            assert(handles@[i as int] == handle);
            return true;
        }
        i = i + 1;
    }
    false
}

} // verus!
