//! Which elements of a frame can be seen.

use vstd::prelude::*;
use crate::element::{Color32F, Element, ElementInfo, RenderElementState};
use crate::geometry::{Rectangle, Transform};
use crate::region::{area, covered, fully_covered, uncovered_pixels, visible_area};
use crate::render_states::{areas_within, with_hidden, with_rendered, RenderElementStates};

verus! {

/// An element that can be seen on the output.
#[derive(Clone, Copy, Debug, PartialEq, Eq, Structural)]
pub struct VisibleElement {
    pub info: ElementInfo,
    /// How many of its pixels can be seen.
    pub visible_area: usize,
    /// Whether it hides everything behind the part of it that lies on the output.
    pub is_opaque: bool,
}

/// The region moved to the element it belongs to.
pub open spec fn shifted(region: Rectangle, info: ElementInfo) -> Rectangle {
    Rectangle { loc: region.loc.plus_spec(info.geometry.loc), size: region.size }
}

pub open spec fn shifted_regions(element: Element) -> Seq<Rectangle> {
    element.opaque_regions@.map_values(|region: Rectangle| shifted(region, element.info))
}

/// The parts of the regions that lie on the output.
pub open spec fn clipped(regions: Seq<Rectangle>, output: Rectangle) -> Seq<Rectangle>
    decreases regions.len(),
{
    if regions.len() == 0 {
        Seq::empty()
    } else {
        match regions.last().intersection_spec(output) {
            Some(part) => clipped(regions.drop_last(), output).push(part),
            None => clipped(regions.drop_last(), output),
        }
    }
}

/// Whether the element hides everything behind `part`.
pub open spec fn hides_all_behind(element: Element, part: Rectangle) -> bool {
    forall|x: int, y: int| #[trigger]
        part.covers(x, y) ==> covered(shifted_regions(element), x, y)
}

/// What is known after looking at some of the elements from the front.
#[verifier::ext_equal]
pub struct Sighting {
    /// The regions nothing can be seen through.
    pub opaque: Seq<Rectangle>,
    pub visible: Seq<VisibleElement>,
    pub states: Map<u64, RenderElementState>,
    pub clear_color: Color32F,
    /// Nothing further back can be seen.
    pub complete: bool,
}

/// What is known after looking at one more element.
///
/// Only what lies on the output and is not hidden counts as visible. An element that hides the
/// whole output ends the search; if it is of a single color, that color is taken for clearing in
/// its place.
pub open spec fn sighted(before: Sighting, element: Element, output: Rectangle) -> Sighting {
    let info = element.info;
    if before.complete {
        Sighting { states: with_hidden(before.states, info.id), ..before }
    } else {
        match info.geometry.intersection_spec(output) {
            None => before,
            Some(part) => {
                let pixels = uncovered_pixels(part, before.opaque).len();
                if pixels == 0 {
                    Sighting { states: with_hidden(before.states, info.id), ..before }
                } else {
                    let is_opaque = hides_all_behind(element, part);
                    let opaque = before.opaque + clipped(shifted_regions(element), output);
                    let seen = VisibleElement { info, visible_area: pixels as usize, is_opaque };
                    if is_opaque && part.contains_spec(output) {
                        match info.single_pixel {
                            Some(color) => Sighting {
                                opaque,
                                states: with_rendered(
                                    before.states,
                                    info.id,
                                    RenderElementState::rendered_spec(pixels as usize),
                                ),
                                clear_color: color,
                                complete: true,
                                visible: before.visible,
                            },
                            None => Sighting {
                                opaque,
                                visible: before.visible.push(seen),
                                complete: true,
                                ..before
                            },
                        }
                    } else {
                        Sighting { opaque, visible: before.visible.push(seen), ..before }
                    }
                }
            },
        }
    }
}

/// What is known after looking at all elements, front to back.
pub open spec fn all_sighted(
    elements: Seq<Element>,
    output: Rectangle,
    clear_color: Color32F,
) -> Sighting
    decreases elements.len(),
{
    if elements.len() == 0 {
        Sighting {
            opaque: Seq::empty(),
            visible: Seq::empty(),
            states: Map::empty(),
            clear_color,
            complete: false,
        }
    } else {
        sighted(
            all_sighted(elements.drop_last(), output, clear_color),
            elements.last(),
            output,
        )
    }
}

/// Whether a part of an element lies on the output.
pub open spec fn on_output(element: Element, output: Rectangle) -> bool {
    element.info.geometry.intersection_spec(output) is Some
}

/// Whether the geometry of an element can be worked with.
pub open spec fn placeable(element: Element) -> bool {
    &&& element.info.geometry.regular()
    &&& forall|i: int|
        0 <= i < element.opaque_regions@.len() ==> (
        #[trigger] element.opaque_regions@[i]).loc.plus_fits(element.info.geometry.loc)
}

/// The outcome of the search for visible elements.
pub struct Visibility {
    /// The visible elements, front to back.
    pub visible: Vec<VisibleElement>,
    pub states: RenderElementStates,
    pub clear_color: Color32F,
}

/// An output can be searched if its extent is not negative and its pixels can be counted.
pub open spec fn searchable(output: Rectangle) -> bool {
    output.regular() && output.loc.x == 0 && output.loc.y == 0 && area(output) <= i32::MAX
}

proof fn lemma_part(geometry: Rectangle, output: Rectangle, part: Rectangle)
    requires
        geometry.regular(),
        searchable(output),
        geometry.intersection_spec(output) == Some(part),
    ensures
        part.regular(),
        0 <= area(part) <= area(output),
{
    assert(0 <= part.size.w <= output.size.w);
    assert(0 <= part.size.h <= output.size.h);
    assert(part.size.w * part.size.h <= output.size.w * output.size.h) by (nonlinear_arith)
        requires
            0 <= part.size.w <= output.size.w,
            0 <= part.size.h <= output.size.h,
    ;
    assert(0 <= part.size.w * part.size.h) by (nonlinear_arith)
        requires
            0 <= part.size.w,
            0 <= part.size.h,
    ;
}

/// No more pixels can be seen of a part than it has.
pub proof fn visible_pixels_are_bounded(part: Rectangle, opaque: Seq<Rectangle>)
    requires
        part.regular(),
    ensures
        uncovered_pixels(part, opaque).finite(),
        uncovered_pixels(part, opaque).len() <= area(part),
{
    let whole = seq![part];
    crate::region::area_counts_the_pixels(whole);
    assert(whole.drop_last() =~= Seq::empty());
    assert(crate::region::area_sum(Seq::<Rectangle>::empty()) == 0);
    assert(crate::region::area_sum(whole) == area(part));
    let pixels = crate::region::covered_pixels(whole);
    assert(uncovered_pixels(part, opaque).subset_of(pixels)) by {
        assert forall|p: (int, int)| uncovered_pixels(part, opaque).contains(p) implies pixels.contains(p) by {
            assert(whole[0].covers(p.0, p.1));
        }
    }
    vstd::set_lib::lemma_set_subset_finite(pixels, uncovered_pixels(part, opaque));
    vstd::set_lib::lemma_len_subset(uncovered_pixels(part, opaque), pixels);
}

/// What lies on the output can be turned with it.
pub proof fn visible_rectangles_can_be_turned(
    geometry: Rectangle,
    output: Rectangle,
    transform: Transform,
)
    requires
        geometry.regular(),
        searchable(output),
        geometry.intersection_spec(output) is Some,
    ensures
        transform.rect_fits(geometry, output.size),
{
}

/// Finds the elements that can be seen, front to back.
pub fn find_visible(elements: &Vec<Element>, output: Rectangle, clear_color: Color32F) -> (r: Visibility)
    requires
        searchable(output),
        forall|i: int|
            0 <= i < elements@.len() && on_output(#[trigger] elements@[i], output) ==> placeable(
                elements@[i],
            ),
    ensures
        r.visible@ == all_sighted(elements@, output, clear_color).visible,
        r.states@ == all_sighted(elements@, output, clear_color).states,
        r.clear_color == all_sighted(elements@, output, clear_color).clear_color,
        areas_within(r.states@, area(output)),
        r.visible@.len() <= elements@.len(),
        forall|i: int|
            0 <= i < r.visible@.len() ==> (#[trigger] r.visible@[i]).visible_area <= area(output),
        forall|i: int|
            0 <= i < r.visible@.len() ==> exists|k: int|
                0 <= k < elements@.len() && (#[trigger] elements@[k]).info == (
                #[trigger] r.visible@[i]).info && on_output(elements@[k], output),
{
    let mut opaque: Vec<Rectangle> = Vec::new();
    let mut visible: Vec<VisibleElement> = Vec::new();
    let mut states = RenderElementStates::new();
    let mut color = clear_color;
    let mut complete = false;
    let mut n: usize = 0;
    proof {
        assert(0 <= output.size.w * output.size.h) by (nonlinear_arith)
            requires
                0 <= output.size.w,
                0 <= output.size.h,
        ;
    }
    while n < elements.len()
        invariant
            n <= elements.len(),
            searchable(output),
            0 <= area(output),
            forall|i: int|
                0 <= i < elements@.len() && on_output(#[trigger] elements@[i], output)
                    ==> placeable(elements@[i]),
            all_sighted(elements@.take(n as int), output, clear_color) == (Sighting {
                opaque: opaque@,
                visible: visible@,
                states: states@,
                clear_color: color,
                complete,
            }),
            areas_within(states@, area(output)),
            !complete ==> areas_within(states@, 0),
            visible@.len() <= n,
            forall|i: int|
                0 <= i < visible@.len() ==> (#[trigger] visible@[i]).visible_area <= area(output),
            forall|i: int|
                0 <= i < visible@.len() ==> exists|k: int|
                    0 <= k < elements@.len() && (#[trigger] elements@[k]).info == (
                    #[trigger] visible@[i]).info && on_output(elements@[k], output),
        decreases elements.len() - n,
    {
        let element = &elements[n];
        let info = element.info;
        let ghost before = Sighting {
            opaque: opaque@,
            visible: visible@,
            states: states@,
            clear_color: color,
            complete,
        };
        let ghost after = sighted(before, elements@[n as int], output);
        proof {
            let upto = elements@.take(n as int + 1);
            assert(upto.drop_last() =~= elements@.take(n as int));
            assert(upto.last() == elements@[n as int]);
            assert(all_sighted(upto, output, clear_color) == after);
        }
        if complete {
            states.note_hidden(info.id);
        } else if let Some(part) = info.geometry.intersection(output) {
            proof {
                assert(on_output(elements@[n as int], output));
                lemma_part(info.geometry, output, part);
                visible_pixels_are_bounded(part, opaque@);
            }
            let pixels: usize = visible_area(part, &opaque);
            if pixels == 0 {
                states.note_hidden(info.id);
            } else {
                proof {
                    if part.size.w == 0 || part.size.h == 0 {
                        assert(area(part) == 0) by (nonlinear_arith)
                            requires
                                part.size.w == 0 || part.size.h == 0,
                                area(part) == part.size.w * part.size.h,
                        ;
                    }
                }
                let regions = shift_regions(element);
                let is_opaque = fully_covered(part, &regions);
                assert(is_opaque == hides_all_behind(elements@[n as int], part));
                clip_regions(&mut opaque, &regions, output);
                let seen = VisibleElement { info, visible_area: pixels, is_opaque };
                if is_opaque && part.contains_rect(output) {
                    match info.single_pixel {
                        Some(single) => {
                            color = single;
                            states.render(info.id, RenderElementState::rendered(pixels));
                        },
                        None => {
                            visible.push(seen);
                        },
                    }
                    complete = true;
                } else {
                    visible.push(seen);
                }
            }
        }
        proof {
            assert(after =~= (Sighting {
                opaque: opaque@,
                visible: visible@,
                states: states@,
                clear_color: color,
                complete,
            }));
        }
        n = n + 1;
    }
    assert(elements@.take(elements@.len() as int) =~= elements@);
    Visibility { visible, states, clear_color: color }
}

/// The opaque regions of an element, moved to where the element is.
fn shift_regions(element: &Element) -> (r: Vec<Rectangle>)
    requires
        placeable(*element),
    ensures
        r@ == shifted_regions(*element),
{
    let mut regions: Vec<Rectangle> = Vec::new();
    let mut i: usize = 0;
    while i < element.opaque_regions.len()
        invariant
            i <= element.opaque_regions.len(),
            placeable(*element),
            regions@ == shifted_regions(*element).take(i as int),
        decreases element.opaque_regions.len() - i,
    {
        let region = element.opaque_regions[i];
        regions.push(
            Rectangle { loc: region.loc.plus(element.info.geometry.loc), size: region.size },
        );
        assert(regions@ =~= shifted_regions(*element).take(i as int + 1));
        i = i + 1;
    }
    assert(shifted_regions(*element).take(i as int) =~= shifted_regions(*element));
    regions
}

/// Appends the parts of the regions that lie on the output.
fn clip_regions(opaque: &mut Vec<Rectangle>, regions: &Vec<Rectangle>, output: Rectangle)
    ensures
        final(opaque)@ == old(opaque)@ + clipped(regions@, output),
{
    let mut i: usize = 0;
    assert(opaque@ =~= old(opaque)@ + clipped(regions@.take(0), output));
    while i < regions.len()
        invariant
            i <= regions.len(),
            opaque@ == old(opaque)@ + clipped(regions@.take(i as int), output),
        decreases regions.len() - i,
    {
        let ghost upto = regions@.take(i as int + 1);
        assert(upto.drop_last() =~= regions@.take(i as int));
        assert(upto.last() == regions@[i as int]);
        if let Some(part) = regions[i].intersection(output) {
            opaque.push(part);
        }
        assert(opaque@ =~= old(opaque)@ + clipped(upto, output));
        i = i + 1;
    }
    assert(regions@.take(i as int) =~= regions@);
}

/// A pixel of the output is covered by the clipped regions exactly when it was covered by them.
pub proof fn clipping_keeps_the_output(regions: Seq<Rectangle>, output: Rectangle, x: int, y: int)
    requires
        output.covers(x, y),
    ensures
        covered(clipped(regions, output), x, y) <==> covered(regions, x, y),
    decreases regions.len(),
{
    if regions.len() > 0 {
        let front = regions.drop_last();
        let last = regions.last();
        clipping_keeps_the_output(front, output, x, y);
        crate::geometry::intersection_holds_the_shared_pixels(last, output, x, y);
        let before = clipped(front, output);
        let after = clipped(regions, output);
        if covered(before, x, y) {
            let i = choose|i: int| 0 <= i < before.len() && (#[trigger] before[i]).covers(x, y);
            assert(after[i].covers(x, y));
        }
        if covered(front, x, y) {
            let i = choose|i: int| 0 <= i < front.len() && (#[trigger] front[i]).covers(x, y);
            assert(regions[i].covers(x, y));
        }
        if last.covers(x, y) {
            assert(regions[regions.len() - 1].covers(x, y));
            assert(after[after.len() - 1].covers(x, y));
        }
        if covered(after, x, y) {
            let i = choose|i: int| 0 <= i < after.len() && (#[trigger] after[i]).covers(x, y);
            if i < before.len() {
                assert(before[i].covers(x, y));
            }
        }
        if covered(regions, x, y) {
            let i = choose|i: int| 0 <= i < regions.len() && (#[trigger] regions[i]).covers(x, y);
            if i < front.len() {
                assert(front[i].covers(x, y));
            }
        }
    }
}

/// Once the search is complete nothing further back could be seen: of no element any pixel would
/// have been left uncovered. So reporting the rest as hidden is right.
pub proof fn nothing_is_visible_behind_a_complete_search(
    before: Sighting,
    element: Element,
    output: Rectangle,
    behind: Rectangle,
)
    requires
        !before.complete,
        sighted(before, element, output).complete,
        output.contains_spec(behind),
    ensures
        uncovered_pixels(behind, sighted(before, element, output).opaque) =~= Set::empty(),
{
    let after = sighted(before, element, output);
    let part = element.info.geometry.intersection_spec(output)->0;
    let regions = shifted_regions(element);
    assert forall|p: (int, int)| !uncovered_pixels(behind, after.opaque).contains(p) by {
        if behind.covers(p.0, p.1) {
            assert(output.covers(p.0, p.1));
            assert(part.covers(p.0, p.1));
            assert(covered(regions, p.0, p.1));
            clipping_keeps_the_output(regions, output, p.0, p.1);
            let new = clipped(regions, output);
            let i = choose|i: int| 0 <= i < new.len() && (#[trigger] new[i]).covers(p.0, p.1);
            assert(after.opaque[before.opaque.len() + i] == new[i]);
            assert(covered(after.opaque, p.0, p.1));
        }
    }
}

} // verus!
