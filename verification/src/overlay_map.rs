//! Which elements of a frame went to overlay planes, and how they are known to the renderer.

use indexmap::IndexMap;
use vstd::prelude::*;
use crate::frame_state::FrameState;
use crate::plane::PlaneState;

verus! {

/// The elements on overlay planes, by plane, in the order in which they were put there.
pub uninterp spec fn overlay_entries(map: IndexMap<u32, usize, std::hash::RandomState>) -> Seq<
    (u32, usize),
>;

/// The position of a key, or the length where there is none.
pub open spec fn key_index(entries: Seq<(u32, usize)>, key: u32) -> int
    decreases entries.len(),
{
    if entries.len() == 0 {
        0
    } else if entries[0].0 == key {
        0
    } else {
        1 + key_index(entries.skip(1), key)
    }
}

pub open spec fn has_key(entries: Seq<(u32, usize)>, key: u32) -> bool {
    key_index(entries, key) < entries.len()
}

/// What the position of a key means.
pub proof fn key_index_is_first(entries: Seq<(u32, usize)>, key: u32)
    ensures
        0 <= key_index(entries, key) <= entries.len(),
        has_key(entries, key) ==> entries[key_index(entries, key)].0 == key,
        forall|j: int| 0 <= j < key_index(entries, key) ==> (#[trigger] entries[j]).0 != key,
    decreases entries.len(),
{
    if entries.len() > 0 && entries[0].0 != key {
        let rest = entries.skip(1);
        key_index_is_first(rest, key);
        assert forall|j: int| 0 <= j < key_index(entries, key) implies (#[trigger] entries[j]).0
            != key by {
            if j > 0 {
                assert(entries[j] == rest[j - 1]);
            }
        }
    }
}

/// The entries with another value for a key, at its place if it is there and at the end if not.
pub open spec fn inserted(entries: Seq<(u32, usize)>, key: u32, value: usize) -> Seq<(u32, usize)> {
    if has_key(entries, key) {
        entries.update(key_index(entries, key), (key, value))
    } else {
        entries.push((key, value))
    }
}

/// The entries without a key, the others in their order.
pub open spec fn key_removed(entries: Seq<(u32, usize)>, key: u32) -> Seq<(u32, usize)> {
    if has_key(entries, key) {
        entries.remove(key_index(entries, key))
    } else {
        entries
    }
}

pub open spec fn value_of(entries: Seq<(u32, usize)>, key: u32) -> Option<usize> {
    if has_key(entries, key) {
        Some(entries[key_index(entries, key)].1)
    } else {
        None
    }
}

/// `IndexMap::new`: the new map holds nothing.
#[verifier::external_body]
fn overlay_new() -> (r: IndexMap<u32, usize, std::hash::RandomState>)
    ensures
        overlay_entries(r).len() == 0,
{
    IndexMap::new()
}

/// `IndexMap::insert`: a key that is there keeps its place and gets the value, a new key goes to
/// the end.
#[verifier::external_body]
fn overlay_insert(map: &mut IndexMap<u32, usize, std::hash::RandomState>, key: u32, value: usize)
    ensures
        overlay_entries(*final(map)) == inserted(overlay_entries(*old(map)), key, value),
{
    map.insert(key, value);
}

/// `IndexMap::shift_remove`: the key is removed, its value handed out, and the order of the others
/// kept.
#[verifier::external_body]
fn overlay_shift_remove(map: &mut IndexMap<u32, usize, std::hash::RandomState>, key: u32) -> (r:
    Option<usize>)
    ensures
        overlay_entries(*final(map)) == key_removed(overlay_entries(*old(map)), key),
        r == value_of(overlay_entries(*old(map)), key),
{
    map.shift_remove(&key)
}

/// `IndexMap::iter`: all keys with their values, in order.
#[verifier::external_body]
fn overlay_list(map: &IndexMap<u32, usize, std::hash::RandomState>) -> (r: Vec<(u32, usize)>)
    ensures
        r@ == overlay_entries(*map),
{
    map.iter().map(|entry| (*entry.0, *entry.1)).collect()
}

/// The elements that overlay planes show.
pub struct OverlayElements {
    pub map: IndexMap<u32, usize, std::hash::RandomState>,
}

impl View for OverlayElements {
    type V = Seq<(u32, usize)>;

    open spec fn view(&self) -> Seq<(u32, usize)> {
        overlay_entries(self.map)
    }
}

impl OverlayElements {
    pub fn new() -> (r: OverlayElements)
        ensures
            r@ == Seq::<(u32, usize)>::empty(),
    {
        let r = OverlayElements { map: overlay_new() };
        assert(r@ =~= Seq::<(u32, usize)>::empty());
        r
    }

    pub fn insert(&mut self, plane: u32, element: usize)
        ensures
            final(self)@ == inserted(old(self)@, plane, element),
    {
        overlay_insert(&mut self.map, plane, element);
    }

    pub fn remove(&mut self, plane: u32) -> (r: Option<usize>)
        ensures
            final(self)@ == key_removed(old(self)@, plane),
            r == value_of(old(self)@, plane),
    {
        overlay_shift_remove(&mut self.map, plane)
    }

    pub fn list(&self) -> (r: Vec<(u32, usize)>)
        ensures
            r@ == self@,
    {
        overlay_list(&self.map)
    }
}

/// The ids under which elements on overlay planes are known to the renderer: one per plane, for as
/// long as the plane shows the same element.
pub struct OverlayPlaneElementIds {
    /// The plane, its id, and the element it shows.
    pub plane_ids: Vec<(u32, u64, u64)>,
}

/// The position of a plane, or the length where there is none.
pub open spec fn plane_index(ids: Seq<(u32, u64, u64)>, plane: u32) -> int
    decreases ids.len(),
{
    if ids.len() == 0 {
        0
    } else if ids[0].0 == plane {
        0
    } else {
        1 + plane_index(ids.skip(1), plane)
    }
}

/// The ids after the plane was looked up for an element.
pub open spec fn ids_after(
    ids: Seq<(u32, u64, u64)>,
    plane: u32,
    element_id: u64,
    fresh: u64,
) -> Seq<(u32, u64, u64)> {
    let i = plane_index(ids, plane);
    if i < ids.len() {
        if ids[i].2 != element_id {
            ids.update(i, (plane, fresh, element_id))
        } else {
            ids
        }
    } else {
        ids.push((plane, fresh, element_id))
    }
}

/// The id of a plane while it shows the element.
pub open spec fn id_for(ids: Seq<(u32, u64, u64)>, plane: u32, element_id: u64, fresh: u64) -> u64 {
    let i = plane_index(ids, plane);
    if i < ids.len() && ids[i].2 == element_id {
        ids[i].1
    } else {
        fresh
    }
}

/// Tells the entries of other planes.
pub open spec fn of_other_planes(plane: u32) -> spec_fn((u32, u64, u64)) -> bool {
    |entry: (u32, u64, u64)| entry.0 != plane
}

pub open spec fn without_plane(ids: Seq<(u32, u64, u64)>, plane: u32) -> Seq<(u32, u64, u64)> {
    ids.filter(of_other_planes(plane))
}

proof fn lemma_plane_at(ids: Seq<(u32, u64, u64)>, plane: u32, i: int)
    requires
        0 <= i <= ids.len(),
        i < ids.len() ==> ids[i].0 == plane,
        forall|j: int| 0 <= j < i ==> (#[trigger] ids[j]).0 != plane,
    ensures
        plane_index(ids, plane) == i,
    decreases ids.len(),
{
    if ids.len() > 0 && ids[0].0 != plane {
        let rest = ids.skip(1);
        assert forall|j: int| 0 <= j < i - 1 implies (#[trigger] rest[j]).0 != plane by {
            assert(rest[j] == ids[j + 1]);
        }
        lemma_plane_at(rest, plane, i - 1);
    }
}

impl OverlayPlaneElementIds {
    pub fn new() -> (r: OverlayPlaneElementIds)
        ensures
            r.plane_ids@.len() == 0,
    {
        OverlayPlaneElementIds { plane_ids: Vec::new() }
    }

    fn find(&self, plane: u32) -> (r: usize)
        ensures
            r == plane_index(self.plane_ids@, plane),
            r <= self.plane_ids@.len(),
    {
        let mut i: usize = 0;
        while i < self.plane_ids.len()
            invariant
                i <= self.plane_ids.len(),
                forall|j: int| 0 <= j < i ==> (#[trigger] self.plane_ids@[j]).0 != plane,
            decreases self.plane_ids.len() - i,
        {
            if self.plane_ids[i].0 == plane {
                proof {
                    lemma_plane_at(self.plane_ids@, plane, i as int);
                }
                return i;
            }
            i = i + 1;
        }
        proof {
            lemma_plane_at(self.plane_ids@, plane, i as int);
        }
        i
    }

    /// The id of the plane if it showed the element already, or else the fresh one.
    pub fn plane_id_for_element_id(&mut self, plane: u32, element_id: u64, fresh: u64) -> (r: u64)
        ensures
            r == id_for(old(self).plane_ids@, plane, element_id, fresh),
            final(self).plane_ids@ == ids_after(old(self).plane_ids@, plane, element_id, fresh),
    {
        let i: usize = self.find(plane);
        if i < self.plane_ids.len() {
            if self.plane_ids[i].2 != element_id {
                self.plane_ids.set(i, (plane, fresh, element_id));
                fresh
            } else {
                self.plane_ids[i].1
            }
        } else {
            self.plane_ids.push((plane, fresh, element_id));
            fresh
        }
    }

    /// Whether some plane has this id.
    pub fn contains_plane_id(&self, plane_id: u64) -> (r: bool)
        ensures
            r == has_plane_id(self.plane_ids@, plane_id),
    {
        let mut i: usize = 0;
        while i < self.plane_ids.len()
            invariant
                i <= self.plane_ids.len(),
                forall|j: int| 0 <= j < i ==> (#[trigger] self.plane_ids@[j]).1 != plane_id,
            decreases self.plane_ids.len() - i,
        {
            if self.plane_ids[i].1 == plane_id {
                assert(self.plane_ids@[i as int].1 == plane_id);
                return true;
            }
            i = i + 1;
        }
        false
    }

    /// Forgets a plane.
    pub fn remove_plane(&mut self, plane: u32)
        ensures
            final(self).plane_ids@ == without_plane(old(self).plane_ids@, plane),
    {
        let mut kept: Vec<(u32, u64, u64)> = Vec::new();
        let mut i: usize = 0;
        proof {
            reveal(Seq::filter);
        }
        while i < self.plane_ids.len()
            invariant
                i <= self.plane_ids.len(),
                *self == *old(self),
                kept@ == without_plane(self.plane_ids@.take(i as int), plane),
            decreases self.plane_ids.len() - i,
        {
            proof {
                reveal(Seq::filter);
                assert(self.plane_ids@.take(i as int + 1).drop_last() =~= self.plane_ids@.take(
                    i as int,
                ));
            }
            if self.plane_ids[i].0 != plane {
                kept.push(self.plane_ids[i]);
            }
            i = i + 1;
        }
        assert(self.plane_ids@.take(i as int) =~= self.plane_ids@);
        self.plane_ids = kept;
    }
}

pub open spec fn has_plane_id(ids: Seq<(u32, u64, u64)>, plane_id: u64) -> bool {
    exists|i: int| 0 <= i < ids.len() && (#[trigger] ids[i]).1 == plane_id
}

/// A plane keeps its id for as long as it shows the same element: looking it up again gives the
/// id that was given before, and changes nothing.
pub proof fn plane_ids_are_stable(
    ids: Seq<(u32, u64, u64)>,
    plane: u32,
    element_id: u64,
    fresh: u64,
    other_fresh: u64,
)
    ensures
        id_for(ids_after(ids, plane, element_id, fresh), plane, element_id, other_fresh) == id_for(
            ids,
            plane,
            element_id,
            fresh,
        ),
        ids_after(ids_after(ids, plane, element_id, fresh), plane, element_id, other_fresh)
            == ids_after(ids, plane, element_id, fresh),
        has_plane_id(
            ids_after(ids, plane, element_id, fresh),
            id_for(ids, plane, element_id, fresh),
        ),
{
    let after = ids_after(ids, plane, element_id, fresh);
    lemma_plane_index(ids, plane);
    let i = plane_index(ids, plane);
    assert forall|j: int| 0 <= j < i implies (#[trigger] after[j]).0 != plane by {
        assert(ids[j].0 != plane);
    }
    lemma_plane_at(after, plane, i);
    assert(after[i].1 == id_for(ids, plane, element_id, fresh));
}

proof fn lemma_plane_index(ids: Seq<(u32, u64, u64)>, plane: u32)
    ensures
        0 <= plane_index(ids, plane) <= ids.len(),
        plane_index(ids, plane) < ids.len() ==> ids[plane_index(ids, plane)].0 == plane,
        forall|j: int| 0 <= j < plane_index(ids, plane) ==> (#[trigger] ids[j]).0 != plane,
    decreases ids.len(),
{
    if ids.len() > 0 && ids[0].0 != plane {
        let rest = ids.skip(1);
        lemma_plane_index(rest, plane);
        assert forall|j: int| 0 <= j < plane_index(ids, plane) implies (#[trigger] ids[j]).0
            != plane by {
            if j > 0 {
                assert(ids[j] == rest[j - 1]);
            }
        }
    }
}

/// The ids after all planes were forgotten that the previous frame used and the next one does not.
pub open spec fn ids_cleaned(
    ids: Seq<(u32, u64, u64)>,
    previous: Seq<(u32, PlaneState)>,
    next: Seq<(u32, PlaneState)>,
) -> Seq<(u32, u64, u64)>
    decreases previous.len(),
{
    if previous.len() == 0 {
        ids
    } else {
        let before = ids_cleaned(ids, previous.drop_last(), next);
        let (handle, state) = previous.last();
        if state.config.is_some() && !crate::frame_state::assigned(next, handle) {
            without_plane(before, handle)
        } else {
            before
        }
    }
}

impl OverlayPlaneElementIds {
    /// Forgets the planes that the previous frame used and the next one does not.
    pub fn forget_unused(&mut self, previous: &FrameState, next: &FrameState)
        ensures
            final(self).plane_ids@ == ids_cleaned(old(self).plane_ids@, previous@, next@),
    {
        let n: usize = previous.len();
        let mut i: usize = 0;
        assert(previous@.take(0) =~= Seq::empty());
        while i < n
            invariant
                i <= n,
                n == previous@.len(),
                self.plane_ids@ == ids_cleaned(
                    old(self).plane_ids@,
                    previous@.take(i as int),
                    next@,
                ),
            decreases n - i,
        {
            let (handle, state) = previous.entry(i);
            assert(previous@.take(i as int + 1).drop_last() =~= previous@.take(i as int));
            if state.config.is_some() && !next.is_assigned(handle) {
                self.remove_plane(handle);
            }
            i = i + 1;
        }
        assert(previous@.take(i as int) =~= previous@);
    }
}

} // verus!
