//! Elements that sample what lies behind them.

use vstd::prelude::*;
use crate::geometry::Rectangle;

verus! {

/// The effects among the elements, each with its position, in the order given.
pub open spec fn effect_regions_spec(elements: Seq<(bool, Rectangle)>) -> Seq<(usize, Rectangle)>
    decreases elements.len(),
{
    if elements.len() == 0 {
        Seq::empty()
    } else {
        let before = effect_regions_spec(elements.drop_last());
        if elements.last().0 {
            before.push(((elements.len() - 1) as usize, elements.last().1))
        } else {
            before
        }
    }
}

/// Collect the framebuffer-effect elements of a frame into `out`, paired with the
/// geometry each one samples, in the order given.
///
/// What `out` held before is dropped, and its allocation is used again.
pub fn collect_framebuffer_effect_regions(
    out: &mut Vec<(usize, Rectangle)>,
    elements: &[(bool, Rectangle)],
)
    ensures
        final(out)@ == effect_regions_spec(elements@),
{
    out.clear();
    let mut i: usize = 0;
    while i < elements.len()
        invariant
            i <= elements.len(),
            out@ == effect_regions_spec(elements@.take(i as int)),
        decreases elements.len() - i,
    {
        assert(elements@.take(i as int + 1).drop_last() =~= elements@.take(i as int));
        if elements[i].0 {
            out.push((i, elements[i].1));
        }
        i = i + 1;
    }
    assert(elements@.take(elements@.len() as int) =~= elements@);
}

/// Whether an effect lies in front of the position and overlaps the geometry.
pub open spec fn below_effect(
    index: int,
    geometry: Rectangle,
    effect_regions: Seq<(usize, Rectangle)>,
) -> bool {
    exists|i: int|
        0 <= i < effect_regions.len() && index > (#[trigger] effect_regions[i]).0
            && effect_regions[i].1.overlaps_spec(geometry)
}

/// Whether the element at `index` sits BELOW a framebuffer effect it overlaps.
///
/// Elements are ordered front to back, so an element sits below another exactly when its index is
/// greater. Such an element has to be composited, because the effect samples the framebuffer: on a
/// plane of its own its pixels would be missing there. An element that merely touches the edge of
/// an effect contributes no pixels to it and is left alone.
pub fn below_framebuffer_effect(
    index: usize,
    geometry: Rectangle,
    effect_regions: &[(usize, Rectangle)],
) -> (r: bool)
    ensures
        r == below_effect(index as int, geometry, effect_regions@),
{
    let mut i: usize = 0;
    while i < effect_regions.len()
        invariant
            i <= effect_regions.len(),
            forall|j: int|
                0 <= j < i ==> !(index > (#[trigger] effect_regions@[j]).0
                    && effect_regions@[j].1.overlaps_spec(geometry)),
        decreases effect_regions.len() - i,
    {
        let region = effect_regions[i];
        if index > region.0 && region.1.overlaps(geometry) {
            assert(effect_regions@[i as int] == region);
            return true;
        }
        i = i + 1;
    }
    false
}

/// Every effect of the frame is found by the scan, and nothing else.
pub proof fn scan_finds_exactly_the_effects(elements: Seq<(bool, Rectangle)>, index: usize)
    requires
        elements.len() <= usize::MAX,
    ensures
        index < elements.len() && elements[index as int].0 <==> exists|i: int|
            0 <= i < effect_regions_spec(elements).len() && (#[trigger] effect_regions_spec(
                elements,
            )[i]).0 == index,
        forall|i: int|
            0 <= i < effect_regions_spec(elements).len() ==> (#[trigger] effect_regions_spec(
                elements,
            )[i]).0 < elements.len() && effect_regions_spec(elements)[i].1 == elements[effect_regions_spec(
                elements,
            )[i].0 as int].1,
    decreases elements.len(),
{
    if elements.len() > 0 {
        let front = elements.drop_last();
        let before = effect_regions_spec(front);
        let after = effect_regions_spec(elements);
        scan_finds_exactly_the_effects(front, index);
        if exists|i: int| 0 <= i < before.len() && (#[trigger] before[i]).0 == index {
            let i = choose|i: int| 0 <= i < before.len() && (#[trigger] before[i]).0 == index;
            assert(after[i] == before[i]);
        }
        if elements.last().0 {
            assert(after[before.len() as int] == ((elements.len() - 1) as usize, elements.last().1));
        }
        if exists|i: int| 0 <= i < after.len() && (#[trigger] after[i]).0 == index {
            let i = choose|i: int| 0 <= i < after.len() && (#[trigger] after[i]).0 == index;
            if i < before.len() {
                assert(before[i] == after[i]);
            }
        }
        assert forall|i: int| 0 <= i < after.len() implies (#[trigger] after[i]).0 < elements.len()
            && after[i].1 == elements[after[i].0 as int].1 by {
            if i < before.len() {
                assert(before[i] == after[i]);
            }
        }
    }
}

/// An element is refused a plane of its own exactly when an effect in front of it overlaps it.
pub proof fn refused_exactly_below_an_effect(
    elements: Seq<(bool, Rectangle)>,
    index: int,
)
    requires
        elements.len() <= usize::MAX,
        0 <= index < elements.len(),
    ensures
        below_effect(index, elements[index].1, effect_regions_spec(elements)) <==> exists|k: int|
            0 <= k < index && (#[trigger] elements[k]).0 && elements[k].1.overlaps_spec(
                elements[index].1,
            ),
{
    let regions = effect_regions_spec(elements);
    let geometry = elements[index].1;
    if below_effect(index, geometry, regions) {
        let i = choose|i: int|
            0 <= i < regions.len() && index > (#[trigger] regions[i]).0
                && regions[i].1.overlaps_spec(geometry);
        scan_finds_exactly_the_effects(elements, regions[i].0);
        let k = regions[i].0 as int;
        assert(elements[k].0 && elements[k].1.overlaps_spec(geometry));
    }
    if exists|k: int|
        0 <= k < index && (#[trigger] elements[k]).0 && elements[k].1.overlaps_spec(geometry) {
        let k = choose|k: int|
            0 <= k < index && (#[trigger] elements[k]).0 && elements[k].1.overlaps_spec(geometry);
        scan_finds_exactly_the_effects(elements, k as usize);
        let i = choose|i: int| 0 <= i < regions.len() && (#[trigger] regions[i]).0 == k as usize;
        assert(index > regions[i].0 && regions[i].1.overlaps_spec(geometry));
    }
}

} // verus!
