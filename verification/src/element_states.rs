//! What the compositor remembers about elements from one frame to the next.

use indexmap::IndexMap;
use smallvec::SmallVec;
use vstd::prelude::*;
use crate::buffer::{CachedDrmFramebuffer, UnderlyingStorage};
use crate::plane::PlaneProperties;

verus! {

/// Why an element's buffer can not be put on a plane.
#[derive(Clone, Copy, Debug, PartialEq, Eq, Structural)]
pub enum ExportBufferError {
    /// The element has no underlying storage.
    NoUnderlyingStorage,
    /// Exporting the framebuffer failed.
    ExportFailed,
    /// No framebuffer can be made of the storage.
    Unsupported,
}

/// Identifies a cached framebuffer: the client buffer it was made of, and whether its format may
/// have been replaced by the opaque one.
#[derive(Clone, Copy, Debug, PartialEq, Eq, Structural)]
pub struct ElementFramebufferCacheKey {
    pub allow_opaque_fallback: bool,
    pub buffer: u64,
}

impl ElementFramebufferCacheKey {
    pub open spec fn from_underlying_storage_spec(
        storage: UnderlyingStorage,
        allow_opaque_fallback: bool,
    ) -> Option<ElementFramebufferCacheKey> {
        match storage {
            UnderlyingStorage::Wayland(buffer) => Some(
                ElementFramebufferCacheKey { allow_opaque_fallback, buffer: buffer.id },
            ),
            UnderlyingStorage::Memory => None,
        }
    }

    pub fn from_underlying_storage(storage: &UnderlyingStorage, allow_opaque_fallback: bool) -> (r:
        Option<ElementFramebufferCacheKey>)
        ensures
            r == Self::from_underlying_storage_spec(*storage, allow_opaque_fallback),
    {
        match storage {
            UnderlyingStorage::Wayland(buffer) => Some(
                ElementFramebufferCacheKey { allow_opaque_fallback, buffer: buffer.id },
            ),
            UnderlyingStorage::Memory => None,
        }
    }

    /// Whether the client buffer is among the ones that still exist.
    pub fn is_alive(&self, alive: &Vec<u64>) -> (r: bool)
        ensures
            r == alive@.contains(self.buffer),
    {
        let mut i: usize = 0;
        while i < alive.len()
            invariant
                i <= alive.len(),
                forall|j: int| 0 <= j < i ==> alive@[j] != self.buffer,
            decreases alive.len() - i,
        {
            if alive[i] == self.buffer {
                assert(alive@[i as int] == self.buffer);
                return true;
            }
            i = i + 1;
        }
        false
    }
}

/// A framebuffer, or the reason why there is none.
pub type CacheEntry = (ElementFramebufferCacheKey, Result<CachedDrmFramebuffer, ExportBufferError>);

/// The framebuffers of one element, kept inline for a usual number of buffers.
#[verifier::external_body]
pub struct CacheVec {
    inner: SmallVec<[CacheEntry; 4]>,
}

/// What a [`CacheVec`] holds, in order.
pub uninterp spec fn cache_entries(cache: CacheVec) -> Seq<CacheEntry>;

/// `SmallVec::new`: the new vector holds nothing.
#[verifier::external_body]
fn cache_new() -> (r: CacheVec)
    ensures
        cache_entries(r) == Seq::<CacheEntry>::empty(),
{
    CacheVec { inner: SmallVec::new() }
}

/// `SmallVec::push`: the item is appended.
#[verifier::external_body]
fn cache_push(cache: &mut CacheVec, entry: CacheEntry)
    ensures
        cache_entries(*final(cache)) == cache_entries(*old(cache)).push(entry),
{
    cache.inner.push(entry)
}

/// `SmallVec::len`: the number of items held.
#[verifier::external_body]
fn cache_len(cache: &CacheVec) -> (r: usize)
    ensures
        r == cache_entries(*cache).len(),
{
    cache.inner.len()
}

/// Indexing a `SmallVec`: the item at the position, which has to exist.
#[verifier::external_body]
fn cache_get(cache: &CacheVec, index: usize) -> (r: CacheEntry)
    requires
        index < cache_entries(*cache).len(),
    ensures
        r == cache_entries(*cache)[index as int],
{
    cache.inner[index]
}

/// `SmallVec::retain`: the items for which the predicate holds stay, in their order.
#[verifier::external_body]
fn cache_retain_alive(cache: &mut CacheVec, alive: &Vec<u64>)
    ensures
        cache_entries(*final(cache)) == cache_entries(*old(cache)).filter(
            |entry: CacheEntry| alive@.contains(entry.0.buffer),
        ),
{
    cache.inner.retain(|entry| entry.0.is_alive(alive))
}

/// The first framebuffer stored for a key.
pub open spec fn cached(entries: Seq<CacheEntry>, key: ElementFramebufferCacheKey) -> Option<
    Result<CachedDrmFramebuffer, ExportBufferError>,
>
    decreases entries.len(),
{
    if entries.len() == 0 {
        None
    } else if entries[0].0 == key {
        Some(entries[0].1)
    } else {
        cached(entries.skip(1), key)
    }
}

proof fn lemma_cached_at(entries: Seq<CacheEntry>, key: ElementFramebufferCacheKey, i: int)
    requires
        0 <= i <= entries.len(),
        i < entries.len() ==> entries[i].0 == key,
        forall|j: int| 0 <= j < i ==> (#[trigger] entries[j]).0 != key,
    ensures
        cached(entries, key) == (if i < entries.len() {
            Some(entries[i].1)
        } else {
            None
        }),
    decreases entries.len(),
{
    if entries.len() > 0 && entries[0].0 != key {
        let rest = entries.skip(1);
        assert forall|j: int| 0 <= j < i - 1 implies (#[trigger] rest[j]).0 != key by {
            assert(rest[j] == entries[j + 1]);
        }
        lemma_cached_at(rest, key, i - 1);
    }
}

/// A framebuffer stored for a key without one is found under that key, and what other keys find
/// stays the same.
pub proof fn insert_then_get(
    entries: Seq<CacheEntry>,
    key: ElementFramebufferCacheKey,
    fb: Result<CachedDrmFramebuffer, ExportBufferError>,
    other: ElementFramebufferCacheKey,
)
    requires
        cached(entries, key) is None,
    ensures
        cached(entries.push((key, fb)), other) == (if other == key {
            Some(fb)
        } else {
            cached(entries, other)
        }),
    decreases entries.len(),
{
    let pushed = entries.push((key, fb));
    if entries.len() == 0 {
        let rest = pushed.skip(1);
        assert(rest.len() == 0);
        assert(cached(rest, other) is None);
        assert(pushed[0] == (key, fb));
    } else {
        assert(pushed[0] == entries[0]);
        if entries[0].0 != key {
            insert_then_get(entries.skip(1), key, fb, other);
            assert(pushed.skip(1) =~= entries.skip(1).push((key, fb)));
        }
    }
}

/// Cache for framebuffer handles per cache key.
pub struct ElementFramebufferCache {
    pub fb_cache: CacheVec,
}

impl View for ElementFramebufferCache {
    type V = Seq<CacheEntry>;

    open spec fn view(&self) -> Seq<CacheEntry> {
        cache_entries(self.fb_cache)
    }
}

impl ElementFramebufferCache {
    /// An empty cache.
    pub fn empty() -> (r: ElementFramebufferCache)
        ensures
            r@ == Seq::<CacheEntry>::empty(),
    {
        ElementFramebufferCache { fb_cache: cache_new() }
    }

    pub fn get(&self, cache_key: ElementFramebufferCacheKey) -> (r: Option<
        Result<CachedDrmFramebuffer, ExportBufferError>,
    >)
        ensures
            r == cached(self@, cache_key),
    {
        let n: usize = cache_len(&self.fb_cache);
        let mut i: usize = 0;
        while i < n
            invariant
                i <= n,
                n == self@.len(),
                forall|j: int| 0 <= j < i ==> (#[trigger] self@[j]).0 != cache_key,
            decreases n - i,
        {
            let entry = cache_get(&self.fb_cache, i);
            if entry.0 == cache_key {
                proof {
                    lemma_cached_at(self@, cache_key, i as int);
                }
                return Some(entry.1);
            }
            i = i + 1;
        }
        proof {
            lemma_cached_at(self@, cache_key, n as int);
        }
        None
    }

    pub fn insert(
        &mut self,
        cache_key: ElementFramebufferCacheKey,
        fb: Result<CachedDrmFramebuffer, ExportBufferError>,
    )
        ensures
            final(self)@ == old(self)@.push((cache_key, fb)),
    {
        cache_push(&mut self.fb_cache, (cache_key, fb));
    }

    /// Drops the framebuffers whose client buffer is gone.
    pub fn cleanup(&mut self, alive: &Vec<u64>)
        ensures
            final(self)@ == alive_entries(old(self)@, alive@),
    {
        cache_retain_alive(&mut self.fb_cache, alive);
    }
}

/// The cached framebuffers whose client buffer still exists.
pub open spec fn alive_entries(entries: Seq<CacheEntry>, alive: Seq<u64>) -> Seq<CacheEntry> {
    entries.filter(|entry: CacheEntry| alive.contains(entry.0.buffer))
}

/// Which planes are meant: the primary plane, and by position the cursor and overlay planes.
#[derive(Clone, Copy, Debug, PartialEq, Eq, Structural)]
pub struct PlanesSnapshot {
    pub primary: bool,
    pub cursor_bitmask: u32,
    pub overlay_bitmask: u32,
}

impl PlanesSnapshot {
    pub open spec fn none() -> PlanesSnapshot {
        PlanesSnapshot { primary: false, cursor_bitmask: 0, overlay_bitmask: 0 }
    }
}

impl Default for PlanesSnapshot {
    fn default() -> (r: PlanesSnapshot)
        ensures
            r == PlanesSnapshot::none(),
    {
        PlanesSnapshot { primary: false, cursor_bitmask: 0, overlay_bitmask: 0 }
    }
}

/// One way in which an element was considered for a plane.
#[derive(Clone, Copy, Debug, PartialEq, Eq, Structural)]
pub struct ElementInstanceState {
    pub properties: PlaneProperties,
    /// The planes that were in use at that time.
    pub active_planes: PlanesSnapshot,
    /// The planes on which the element failed its test.
    pub failed_planes: PlanesSnapshot,
}

/// The instances of one element, kept inline for the usual single one.
#[verifier::external_body]
pub struct InstanceVec {
    inner: SmallVec<[ElementInstanceState; 1]>,
}

/// What an [`InstanceVec`] holds, in order.
pub uninterp spec fn instance_entries(instances: InstanceVec) -> Seq<ElementInstanceState>;

/// `SmallVec::new`: the new vector holds nothing.
#[verifier::external_body]
fn instances_new() -> (r: InstanceVec)
    ensures
        instance_entries(r) == Seq::<ElementInstanceState>::empty(),
{
    InstanceVec { inner: SmallVec::new() }
}

/// `SmallVec::push`: the item is appended.
#[verifier::external_body]
fn instances_push(instances: &mut InstanceVec, instance: ElementInstanceState)
    ensures
        instance_entries(*final(instances)) == instance_entries(*old(instances)).push(instance),
{
    instances.inner.push(instance)
}

/// `SmallVec::len`: the number of items held.
#[verifier::external_body]
fn instances_len(instances: &InstanceVec) -> (r: usize)
    ensures
        r == instance_entries(*instances).len(),
{
    instances.inner.len()
}

/// Indexing a `SmallVec`: the item at the position, which has to exist.
#[verifier::external_body]
fn instances_get(instances: &InstanceVec, index: usize) -> (r: ElementInstanceState)
    requires
        index < instance_entries(*instances).len(),
    ensures
        r == instance_entries(*instances)[index as int],
{
    instances.inner[index]
}

/// Assigning to an index of a `SmallVec`: the item at the position, which has to exist, is
/// replaced and all others stay.
#[verifier::external_body]
fn instances_set(instances: &mut InstanceVec, index: usize, instance: ElementInstanceState)
    requires
        index < instance_entries(*old(instances)).len(),
    ensures
        instance_entries(*final(instances)) == instance_entries(*old(instances)).update(
            index as int,
            instance,
        ),
{
    instances.inner[index] = instance;
}

/// The position of the first instance with these properties, or the length where there is none.
pub open spec fn instance_index(
    instances: Seq<ElementInstanceState>,
    properties: PlaneProperties,
) -> int
    decreases instances.len(),
{
    if instances.len() == 0 {
        0
    } else if instances[0].properties.compatible(properties) {
        0
    } else {
        1 + instance_index(instances.skip(1), properties)
    }
}

pub open spec fn has_instance(
    instances: Seq<ElementInstanceState>,
    properties: PlaneProperties,
) -> bool {
    instance_index(instances, properties) < instances.len()
}

pub proof fn instance_index_is_first(
    instances: Seq<ElementInstanceState>,
    properties: PlaneProperties,
)
    ensures
        0 <= instance_index(instances, properties) <= instances.len(),
        forall|j: int|
            0 <= j < instance_index(instances, properties) ==> !(
            #[trigger] instances[j]).properties.compatible(properties),
        has_instance(instances, properties) ==> instances[instance_index(
            instances,
            properties,
        )].properties.compatible(properties),
    decreases instances.len(),
{
    if instances.len() > 0 && !instances[0].properties.compatible(properties) {
        let rest = instances.skip(1);
        instance_index_is_first(rest, properties);
        assert forall|j: int| 0 <= j < instance_index(instances, properties) implies !(
        #[trigger] instances[j]).properties.compatible(properties) by {
            if j > 0 {
                assert(instances[j] == rest[j - 1]);
            }
        }
    }
}

pub proof fn instance_at(
    instances: Seq<ElementInstanceState>,
    properties: PlaneProperties,
    i: int,
)
    requires
        0 <= i <= instances.len(),
        i < instances.len() ==> instances[i].properties.compatible(properties),
        forall|j: int| 0 <= j < i ==> !(#[trigger] instances[j]).properties.compatible(properties),
    ensures
        instance_index(instances, properties) == i,
{
    instance_index_is_first(instances, properties);
    let k = instance_index(instances, properties);
    if k < i {
        assert(!instances[k].properties.compatible(properties));
    }
    if i < k {
        assert(!instances[i].properties.compatible(properties));
    }
}

/// What is remembered about one element.
pub struct ElementState {
    pub instances: InstanceVec,
    pub fb_cache: ElementFramebufferCache,
}

/// The contents of an [`ElementState`].
#[verifier::ext_equal]
pub struct ElementStateView {
    pub instances: Seq<ElementInstanceState>,
    pub fb_cache: Seq<CacheEntry>,
}

impl View for ElementState {
    type V = ElementStateView;

    open spec fn view(&self) -> ElementStateView {
        ElementStateView { instances: instance_entries(self.instances), fb_cache: self.fb_cache@ }
    }
}

impl ElementState {
    fn find_instance(&self, properties: PlaneProperties) -> (r: Option<usize>)
        ensures
            r.is_some() == has_instance(self@.instances, properties),
            r matches Some(i) ==> i == instance_index(self@.instances, properties),
    {
        let n: usize = instances_len(&self.instances);
        let mut i: usize = 0;
        while i < n
            invariant
                i <= n,
                n == self@.instances.len(),
                forall|j: int|
                    0 <= j < i ==> !(#[trigger] self@.instances[j]).properties.compatible(properties),
            decreases n - i,
        {
            if instances_get(&self.instances, i).properties.is_compatible(&properties) {
                proof {
                    instance_at(self@.instances, properties, i as int);
                }
                return Some(i);
            }
            i = i + 1;
        }
        proof {
            instance_at(self@.instances, properties, n as int);
        }
        None
    }
}

#[verifier::external_type_specification]
#[verifier::external_body]
#[verifier::reject_recursive_types(K)]
#[verifier::reject_recursive_types(V)]
#[verifier::reject_recursive_types(S)]
pub struct ExIndexMap<K, V, S>(IndexMap<K, V, S>);

/// What the map of element states holds.
pub uninterp spec fn element_map(map: IndexMap<u64, ElementState, std::hash::RandomState>) -> Map<
    u64,
    ElementState,
>;

/// `IndexMap::new`: the new map holds nothing.
#[verifier::external_body]
fn map_new() -> (r: IndexMap<u64, ElementState, std::hash::RandomState>)
    ensures
        element_map(r) == (Map::<u64, ElementState>::empty()),
{
    IndexMap::new()
}

/// `IndexMap::contains_key`: whether the map has a value for the key.
#[verifier::external_body]
fn map_contains_key(map: &IndexMap<u64, ElementState, std::hash::RandomState>, id: u64) -> (r: bool)
    ensures
        r == element_map(*map).contains_key(id),
{
    map.contains_key(&id)
}

/// `IndexMap::insert`: the key gets the value; all other keys keep theirs.
#[verifier::external_body]
fn map_insert(
    map: &mut IndexMap<u64, ElementState, std::hash::RandomState>,
    id: u64,
    state: ElementState,
)
    ensures
        element_map(*final(map)) == element_map(*old(map)).insert(id, state),
{
    map.insert(id, state);
}

/// `IndexMap::get`: the value of a key that the map has.
#[verifier::external_body]
fn map_get(map: &IndexMap<u64, ElementState, std::hash::RandomState>, id: u64) -> (r: &ElementState)
    requires
        element_map(*map).contains_key(id),
    ensures
        *r == element_map(*map)[id],
{
    map.get(&id).unwrap()
}

/// `IndexMap::get_mut`: the value of a key that the map has, to be changed in place; all other
/// keys keep theirs.
#[verifier::external_body]
fn map_get_mut(map: &mut IndexMap<u64, ElementState, std::hash::RandomState>, id: u64) -> (r:
    &mut ElementState)
    requires
        element_map(*old(map)).contains_key(id),
    ensures
        *r == element_map(*old(map))[id],
        element_map(*final(map)) == element_map(*old(map)).insert(id, *final(r)),
{
    map.get_mut(&id).unwrap()
}

/// `IndexMap::keys`: every key of the map, each of them once.
#[verifier::external_body]
fn map_keys(map: &IndexMap<u64, ElementState, std::hash::RandomState>) -> (r: Vec<u64>)
    ensures
        r@.no_duplicates(),
        forall|id: u64| r@.contains(id) <==> element_map(*map).contains_key(id),
{
    map.keys().copied().collect()
}

/// `IndexMap::clear`: the map holds nothing any more.
#[verifier::external_body]
fn map_clear(map: &mut IndexMap<u64, ElementState, std::hash::RandomState>)
    ensures
        element_map(*final(map)) == (Map::<u64, ElementState>::empty()),
{
    map.clear()
}

/// What is remembered about all elements, by element id.
pub struct ElementStates {
    pub map: IndexMap<u64, ElementState, std::hash::RandomState>,
}

pub open spec fn states_view(map: Map<u64, ElementState>) -> Map<u64, ElementStateView> {
    Map::new(|id: u64| map.contains_key(id), |id: u64| map[id]@)
}

impl View for ElementStates {
    type V = Map<u64, ElementStateView>;

    open spec fn view(&self) -> Map<u64, ElementStateView> {
        states_view(element_map(self.map))
    }
}

/// The cached framebuffers of an element, where anything is remembered about it.
pub open spec fn cache_of(states: Map<u64, ElementStateView>, id: u64) -> Seq<CacheEntry> {
    if states.contains_key(id) {
        states[id].fb_cache
    } else {
        Seq::empty()
    }
}

/// The first remembered instance of an element with these properties.
pub open spec fn instance_of(
    states: Map<u64, ElementStateView>,
    id: u64,
    properties: PlaneProperties,
) -> Option<ElementInstanceState> {
    if states.contains_key(id) && has_instance(states[id].instances, properties) {
        Some(states[id].instances[instance_index(states[id].instances, properties)])
    } else {
        None
    }
}

/// The planes on which an instance of an element failed, where that instance is remembered.
pub open spec fn failed_planes_of(
    states: Map<u64, ElementStateView>,
    id: u64,
    properties: PlaneProperties,
) -> PlanesSnapshot {
    match instance_of(states, id, properties) {
        Some(instance) => instance.failed_planes,
        None => PlanesSnapshot::none(),
    }
}

/// The states with other failed planes for one instance of an element.
pub open spec fn with_failed_planes(
    states: Map<u64, ElementStateView>,
    id: u64,
    properties: PlaneProperties,
    failed_planes: PlanesSnapshot,
) -> Map<u64, ElementStateView> {
    if instance_of(states, id, properties).is_some() {
        let state = states[id];
        let i = instance_index(state.instances, properties);
        states.insert(
            id,
            ElementStateView {
                instances: state.instances.update(
                    i,
                    ElementInstanceState { failed_planes, ..state.instances[i] },
                ),
                ..state
            },
        )
    } else {
        states
    }
}

/// The states after one more instance of a remembered element.
pub open spec fn with_instance(
    states: Map<u64, ElementStateView>,
    id: u64,
    instance: ElementInstanceState,
) -> Map<u64, ElementStateView> {
    states.insert(
        id,
        ElementStateView { instances: states[id].instances.push(instance), ..states[id] },
    )
}

/// The states with one more framebuffer for a remembered element.
pub open spec fn with_framebuffer(
    states: Map<u64, ElementStateView>,
    id: u64,
    key: ElementFramebufferCacheKey,
    fb: Result<CachedDrmFramebuffer, ExportBufferError>,
) -> Map<u64, ElementStateView> {
    states.insert(id, ElementStateView { fb_cache: states[id].fb_cache.push((key, fb)), ..states[id] })
}

/// The states with all framebuffers of an element gone.
pub open spec fn without_cache(states: Map<u64, ElementStateView>, id: u64) -> Map<
    u64,
    ElementStateView,
> {
    if states.contains_key(id) {
        states.insert(id, ElementStateView { fb_cache: Seq::empty(), ..states[id] })
    } else {
        states
    }
}

/// The states with all framebuffers of vanished client buffers gone.
pub open spec fn cleaned_up(states: Map<u64, ElementStateView>, alive: Seq<u64>) -> Map<
    u64,
    ElementStateView,
> {
    Map::new(
        |id: u64| states.contains_key(id),
        |id: u64|
            ElementStateView { fb_cache: alive_entries(states[id].fb_cache, alive), ..states[id] },
    )
}

/// The instances with the primary plane noted as failed on every one of them.
pub open spec fn primary_failed(instances: Seq<ElementInstanceState>) -> Seq<ElementInstanceState> {
    instances.map_values(
        |instance: ElementInstanceState|
            ElementInstanceState {
                failed_planes: PlanesSnapshot { primary: true, ..instance.failed_planes },
                ..instance
            },
    )
}

impl ElementStates {
    pub fn new() -> (r: ElementStates)
        ensures
            r@ == Map::<u64, ElementStateView>::empty(),
    {
        let r = ElementStates { map: map_new() };
        assert(r@ =~= Map::<u64, ElementStateView>::empty());
        r
    }

    /// Whether anything is remembered about the element.
    pub fn contains(&self, id: u64) -> (r: bool)
        ensures
            r == self@.contains_key(id),
    {
        map_contains_key(&self.map, id)
    }

    /// Remembers the element, without instances and with the given framebuffers.
    pub fn start(&mut self, id: u64, fb_cache: ElementFramebufferCache)
        ensures
            final(self)@ == old(self)@.insert(
                id,
                ElementStateView { instances: Seq::empty(), fb_cache: fb_cache@ },
            ),
    {
        map_insert(&mut self.map, id, ElementState { instances: instances_new(), fb_cache });
        assert(self@ =~= old(self)@.insert(
            id,
            ElementStateView { instances: Seq::empty(), fb_cache: fb_cache@ },
        ));
    }

    /// Takes the framebuffers of an element out; there are none where it is not remembered.
    pub fn take_cache(&mut self, id: u64) -> (r: ElementFramebufferCache)
        ensures
            r@ == cache_of(old(self)@, id),
            final(self)@ == without_cache(old(self)@, id),
    {
        if !map_contains_key(&self.map, id) {
            return ElementFramebufferCache::empty();
        }
        let mut taken = ElementFramebufferCache::empty();
        let state = map_get_mut(&mut self.map, id);
        std::mem::swap(&mut taken, &mut state.fb_cache);
        assert(self@ =~= without_cache(old(self)@, id));
        taken
    }

    /// The framebuffer that a remembered element has for a key.
    pub fn framebuffer(&self, id: u64, key: ElementFramebufferCacheKey) -> (r: Option<
        Result<CachedDrmFramebuffer, ExportBufferError>,
    >)
        requires
            self@.contains_key(id),
        ensures
            r == cached(self@[id].fb_cache, key),
    {
        map_get(&self.map, id).fb_cache.get(key)
    }

    /// Stores a framebuffer for a remembered element.
    pub fn insert_framebuffer(
        &mut self,
        id: u64,
        key: ElementFramebufferCacheKey,
        fb: Result<CachedDrmFramebuffer, ExportBufferError>,
    )
        requires
            old(self)@.contains_key(id),
        ensures
            final(self)@ == with_framebuffer(old(self)@, id, key, fb),
    {
        let state = map_get_mut(&mut self.map, id);
        state.fb_cache.insert(key, fb);
        assert(self@ =~= with_framebuffer(old(self)@, id, key, fb));
    }

    /// The first instance of an element with these properties.
    pub fn instance(&self, id: u64, properties: PlaneProperties) -> (r: Option<
        ElementInstanceState,
    >)
        ensures
            r == instance_of(self@, id, properties),
    {
        if !map_contains_key(&self.map, id) {
            return None;
        }
        let state = map_get(&self.map, id);
        match state.find_instance(properties) {
            Some(i) => Some(instances_get(&state.instances, i)),
            None => None,
        }
    }

    /// Remembers one more instance of an element.
    pub fn push_instance(&mut self, id: u64, instance: ElementInstanceState)
        requires
            old(self)@.contains_key(id),
        ensures
            final(self)@ == with_instance(old(self)@, id, instance),
    {
        let state = map_get_mut(&mut self.map, id);
        instances_push(&mut state.instances, instance);
        assert(self@ =~= with_instance(old(self)@, id, instance));
    }

    /// The planes on which an instance of an element failed.
    pub fn failed_planes(&self, id: u64, properties: PlaneProperties) -> (r: PlanesSnapshot)
        ensures
            r == failed_planes_of(self@, id, properties),
    {
        match self.instance(id, properties) {
            Some(instance) => instance.failed_planes,
            None => PlanesSnapshot::default(),
        }
    }

    /// Notes on which planes an instance of an element failed.
    pub fn set_failed_planes(
        &mut self,
        id: u64,
        properties: PlaneProperties,
        failed_planes: PlanesSnapshot,
    )
        ensures
            final(self)@ == with_failed_planes(old(self)@, id, properties, failed_planes),
    {
        if !map_contains_key(&self.map, id) {
            return;
        }
        let found = map_get(&self.map, id).find_instance(properties);
        if let Some(i) = found {
            let state = map_get_mut(&mut self.map, id);
            let instance = instances_get(&state.instances, i);
            instances_set(
                &mut state.instances,
                i,
                ElementInstanceState { failed_planes, ..instance },
            );
            assert(self@ =~= with_failed_planes(old(self)@, id, properties, failed_planes));
        }
    }

    /// Notes that every instance of an element failed on the primary plane.
    pub fn fail_primary(&mut self, id: u64)
        ensures
            final(self)@ == (if old(self)@.contains_key(id) {
                old(self)@.insert(
                    id,
                    ElementStateView {
                        instances: primary_failed(old(self)@[id].instances),
                        ..old(self)@[id]
                    },
                )
            } else {
                old(self)@
            }),
    {
        if !map_contains_key(&self.map, id) {
            return;
        }
        let ghost before = self@[id];
        let state = map_get_mut(&mut self.map, id);
        let n: usize = instances_len(&state.instances);
        let mut i: usize = 0;
        while i < n
            invariant
                i <= n,
                n == before.instances.len(),
                state@.instances.len() == n,
                state@.fb_cache == before.fb_cache,
                forall|j: int| 0 <= j < i ==> state@.instances[j] == primary_failed(before.instances)[j],
                forall|j: int| i <= j < n ==> state@.instances[j] == before.instances[j],
            decreases n - i,
        {
            let instance = instances_get(&state.instances, i);
            let failed_planes = PlanesSnapshot { primary: true, ..instance.failed_planes };
            instances_set(
                &mut state.instances,
                i,
                ElementInstanceState { failed_planes, ..instance },
            );
            i = i + 1;
        }
        assert(state@.instances =~= primary_failed(before.instances));
        assert(self@ =~= old(self)@.insert(
            id,
            ElementStateView { instances: primary_failed(before.instances), ..before },
        ));
    }

    /// Drops the framebuffers of all client buffers that are gone.
    pub fn cleanup(&mut self, alive: &Vec<u64>)
        ensures
            final(self)@ == cleaned_up(old(self)@, alive@),
    {
        let keys = map_keys(&self.map);
        let mut i: usize = 0;
        while i < keys.len()
            invariant
                i <= keys.len(),
                keys@.no_duplicates(),
                forall|id: u64| keys@.contains(id) <==> old(self)@.contains_key(id),
                self@.dom() =~= old(self)@.dom(),
                forall|j: int|
                    0 <= j < i ==> self@[#[trigger] keys@[j]] == cleaned_up(old(self)@, alive@)[keys@[j]],
                forall|j: int|
                    i <= j < keys@.len() ==> self@[#[trigger] keys@[j]] == old(self)@[keys@[j]],
            decreases keys.len() - i,
        {
            let id: u64 = keys[i];
            let ghost before = self@;
            assert(keys@.contains(id));
            let state = map_get_mut(&mut self.map, id);
            state.fb_cache.cleanup(alive);
            assert(self@ =~= before.insert(
                id,
                ElementStateView {
                    fb_cache: alive_entries(before[id].fb_cache, alive@),
                    ..before[id]
                },
            ));
            i = i + 1;
        }
        assert forall|id: u64| #[trigger] self@.contains_key(id) implies self@[id] == cleaned_up(
            old(self)@,
            alive@,
        )[id] by {
            assert(keys@.contains(id));
            let j = choose|j: int| 0 <= j < keys@.len() && keys@[j] == id;
            assert(keys@[j] == id);
        }
        assert(self@ =~= cleaned_up(old(self)@, alive@));
    }

    /// Forgets everything.
    pub fn clear(&mut self)
        ensures
            final(self)@ == Map::<u64, ElementStateView>::empty(),
    {
        map_clear(&mut self.map);
        assert(self@ =~= Map::<u64, ElementStateView>::empty());
    }
}

/// What was noted as failed for an instance is what is read back, and no other element is touched.
pub proof fn failed_planes_are_remembered(
    states: Map<u64, ElementStateView>,
    id: u64,
    properties: PlaneProperties,
    failed_planes: PlanesSnapshot,
    other: u64,
)
    requires
        instance_of(states, id, properties).is_some(),
    ensures
        failed_planes_of(
            with_failed_planes(states, id, properties, failed_planes),
            id,
            properties,
        ) == failed_planes,
        other != id && states.contains_key(other) ==> with_failed_planes(
            states,
            id,
            properties,
            failed_planes,
        )[other] == states[other],
{
    let instances = states[id].instances;
    let i = instance_index(instances, properties);
    instance_index_is_first(instances, properties);
    let updated = instances.update(i, ElementInstanceState { failed_planes, ..instances[i] });
    assert forall|j: int| 0 <= j < i implies !(#[trigger] updated[j]).properties.compatible(
        properties,
    ) by {
        assert(!instances[j].properties.compatible(properties));
    }
    instance_at(updated, properties, i);
}

/// A new instance without NaN among its properties is found afterwards.
pub proof fn pushed_instance_is_found(
    states: Map<u64, ElementStateView>,
    id: u64,
    instance: ElementInstanceState,
)
    requires
        states.contains_key(id),
        instance_of(states, id, instance.properties).is_none(),
        !instance.properties.has_nan(),
    ensures
        instance_of(with_instance(states, id, instance), id, instance.properties) == Some(instance),
{
    let instances = states[id].instances;
    let pushed = instances.push(instance);
    instance_index_is_first(instances, instance.properties);
    assert forall|j: int| 0 <= j < instances.len() implies !(
    #[trigger] pushed[j]).properties.compatible(instance.properties) by {
        assert(!instances[j].properties.compatible(instance.properties));
    }
    instance_at(pushed, instance.properties, instances.len() as int);
}

} // verus!
