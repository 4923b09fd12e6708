//! What holds of the elements that can be seen, in terms of pixels.

use vstd::prelude::*;
use crate::element::{Color32F, Element, RenderElementPresentationState};
use crate::geometry::{intersection_holds_the_shared_pixels, Rectangle};
use crate::region::{covered, uncovered_pixels};
use crate::scanout_laws::lies_in;
use crate::visibility::{
    all_sighted, clipped, clipping_keeps_the_output, hides_all_behind, on_output, placeable,
    searchable, shifted, shifted_regions, sighted, visible_pixels_are_bounded, Sighting,
    VisibleElement,
};

verus! {

/// Whether one of the opaque regions of an element covers the pixel at `(x, y)`. The regions are
/// relative to the element.
pub open spec fn hides(element: Element, r: int, x: int, y: int) -> bool {
    let region = element.opaque_regions@[r];
    let loc = element.info.geometry.loc;
    &&& 0 <= r < element.opaque_regions@.len()
    &&& loc.x + region.loc.x <= x < loc.x + region.loc.x + region.size.w
    &&& loc.y + region.loc.y <= y < loc.y + region.loc.y + region.size.h
}

/// Whether an opaque region of one of the first `n` elements covers the pixel at `(x, y)`.
pub open spec fn hidden_at(elements: Seq<Element>, n: int, x: int, y: int) -> bool {
    exists|j: int, r: int| 0 <= j < n && #[trigger] hides(elements[j], r, x, y)
}

/// The pixels of an element that lie on the output and are hidden by nothing in front.
pub open spec fn sight(elements: Seq<Element>, k: int, output: Rectangle) -> Set<(int, int)> {
    Set::new(
        |p: (int, int)|
            lies_in(elements[k].info.geometry, p.0, p.1) && lies_in(output, p.0, p.1) && !hidden_at(
                elements,
                k,
                p.0,
                p.1,
            ),
    )
}

/// Whether an element hides every pixel of it that lies on the output by regions of its own.
pub open spec fn is_solid(element: Element, output: Rectangle) -> bool {
    forall|x: int, y: int|
        lies_in(element.info.geometry, x, y) && #[trigger] lies_in(output, x, y) ==> exists|r: int|
            hides(element, r, x, y)
}

/// Whether an element lies on every pixel of the output.
pub open spec fn spans(element: Element, output: Rectangle) -> bool {
    forall|x: int, y: int| #[trigger] lies_in(output, x, y) ==> lies_in(element.info.geometry, x, y)
}

/// Whether the elements can be searched: what lies on the output can be worked with.
pub open spec fn are_searchable(elements: Seq<Element>, output: Rectangle) -> bool {
    &&& searchable(output)
    &&& forall|i: int|
        0 <= i < elements.len() && on_output(#[trigger] elements[i], output) ==> placeable(
            elements[i],
        )
}

/// Whether opaque regions lie within their elements.
pub open spec fn are_within(elements: Seq<Element>) -> bool {
    forall|j: int, r: int, x: int, y: int|
        0 <= j < elements.len() && #[trigger] hides(elements[j], r, x, y) ==> lies_in(
            elements[j].info.geometry,
            x,
            y,
        )
}

/// An element of which some pixel can be seen is shown: it is listed as visible, or its color is the
/// one that the output is cleared with.
pub proof fn elements_in_sight_are_shown(
    elements: Seq<Element>,
    output: Rectangle,
    clear_color: Color32F,
    k: int,
    x: int,
    y: int,
)
    requires
        are_searchable(elements, output),
        0 <= k < elements.len(),
        sight(elements, k, output).contains((x, y)),
    ensures
        ({
            let found = all_sighted(elements, output, clear_color);
            (exists|m: int|
                0 <= m < found.visible.len() && (#[trigger] found.visible[m]).info
                    == elements[k].info) || elements[k].info.single_pixel == Some(
                found.clear_color,
            )
        }),
{
    let before = all_sighted(elements.take(k), output, clear_color);
    let upto = elements.take(k + 1);
    let after = all_sighted(upto, output, clear_color);
    assert(upto.drop_last() =~= elements.take(k));
    assert(upto.last() == elements[k]);
    lemma_cover(elements, k, output, clear_color);
    intersection_holds_the_shared_pixels(elements[k].info.geometry, output, x, y);
    lemma_on_output(elements[k], output, x, y);
    let part = elements[k].info.geometry.intersection_spec(output)->0;
    assert(!covered(before.opaque, x, y));
    assert(uncovered_pixels(part, before.opaque).contains((x, y)));
    lemma_nonempty(part, before.opaque, (x, y), output, elements[k]);
    lemma_kept(elements, k + 1, elements.len() as int, output, clear_color);
    assert(elements.take(elements.len() as int) =~= elements);
    if after.visible.len() > before.visible.len() {
        let found = all_sighted(elements, output, clear_color);
        let m = before.visible.len() as int;
        assert(after.visible[m].info == elements[k].info);
        assert(found.visible[m] == after.visible[m]);
    }
}

/// Whether a visible element is the one at a position: the pixels that are counted are those that can
/// be seen, there is at least one, and it counts as opaque exactly if it hides all behind it.
pub open spec fn is_seen_as(
    elements: Seq<Element>,
    k: int,
    output: Rectangle,
    seen: VisibleElement,
) -> bool {
    &&& 0 <= k < elements.len()
    &&& seen.info == elements[k].info
    &&& seen.visible_area == sight(elements, k, output).len()
    &&& seen.visible_area > 0
    &&& seen.is_opaque == is_solid(elements[k], output)
}

/// Whether positions only go further back.
pub open spec fn goes_back(from: Seq<int>) -> bool {
    forall|a: int, b: int| 0 <= a < b < from.len() ==> #[trigger] from[a] < #[trigger] from[b]
}

/// Whether the visible elements are those at the positions.
pub open spec fn are_seen(
    elements: Seq<Element>,
    output: Rectangle,
    visible: Seq<VisibleElement>,
    from: Seq<int>,
) -> bool {
    &&& from.len() == visible.len()
    &&& goes_back(from)
    &&& forall|m: int|
        0 <= m < visible.len() ==> #[trigger] is_seen_as(elements, from[m], output, visible[m])
}

/// The elements that are listed as visible are those that can be seen, in their order from front to
/// back, each with as many pixels as can be seen of it.
pub proof fn visible_elements_are_seen(
    elements: Seq<Element>,
    output: Rectangle,
    clear_color: Color32F,
)
    requires
        are_searchable(elements, output),
        are_within(elements),
    ensures
        exists|from: Seq<int>| #[trigger]
            are_seen(
                elements,
                output,
                all_sighted(elements, output, clear_color).visible,
                from,
            ),
{
    let from = lemma_seen(elements, elements.len() as int, output, clear_color);
    assert(elements.take(elements.len() as int) =~= elements);
}

/// The output is cleared with the color asked for, unless an element of a single color spans the
/// output and hides all behind it; then it is cleared with that color.
pub proof fn the_clear_color_is_what_shines_through(
    elements: Seq<Element>,
    output: Rectangle,
    clear_color: Color32F,
)
    requires
        are_searchable(elements, output),
    ensures
        ({
            let found = all_sighted(elements, output, clear_color);
            found.clear_color == clear_color || exists|k: int|
                0 <= k < elements.len() && is_solid(#[trigger] elements[k], output) && spans(
                    elements[k],
                    output,
                ) && elements[k].info.single_pixel == Some(found.clear_color)
        }),
{
    lemma_clear(elements, elements.len() as int, output, clear_color);
    assert(elements.take(elements.len() as int) =~= elements);
}

/// An element is reported as hidden only if no pixel of it can be seen, and one that lies on the
/// output and can not be seen is reported, as long as it occurs once.
pub proof fn hidden_elements_can_not_be_seen(
    elements: Seq<Element>,
    output: Rectangle,
    clear_color: Color32F,
    k: int,
)
    requires
        are_searchable(elements, output),
        0 <= k < elements.len(),
        forall|j: int|
            0 <= j < elements.len() && j != k ==> (#[trigger] elements[j]).info.id
                != elements[k].info.id,
    ensures
        ({
            let states = all_sighted(elements, output, clear_color).states;
            let id = elements[k].info.id;
            &&& states.contains_key(id) && states[id].presentation_state
                == RenderElementPresentationState::Skipped ==> sight(elements, k, output)
                =~= Set::empty() && states[id].visible_area == 0
            &&& sight(elements, k, output) =~= Set::empty() && are_within(elements) && on_output(
                elements[k],
                output,
            ) ==> states.contains_key(id) && states[id].presentation_state
                == RenderElementPresentationState::Skipped
        }),
{
    lemma_reported(elements, k, elements.len() as int, output, clear_color);
    assert(elements.take(elements.len() as int) =~= elements);
}

// ---------------------------------------------------------------------------------------------
// Proofs
// ---------------------------------------------------------------------------------------------

proof fn lemma_on_output(element: Element, output: Rectangle, x: int, y: int)
    requires
        searchable(output),
        on_output(element, output) ==> placeable(element),
        lies_in(output, x, y),
    ensures
        output.covers(x, y),
        lies_in(element.info.geometry, x, y) ==> on_output(element, output),
        on_output(element, output) ==> lies_in(element.info.geometry, x, y)
            == element.info.geometry.covers(x, y),
        on_output(element, output) ==> lies_in(element.info.geometry, x, y) == (
        element.info.geometry.intersection_spec(output)->0).covers(x, y),
{
    intersection_holds_the_shared_pixels(element.info.geometry, output, x, y);
}

/// The regions of an element cover what they hide.
proof fn lemma_regions(element: Element, output: Rectangle, x: int, y: int)
    requires
        searchable(output),
        placeable(element),
        lies_in(output, x, y),
    ensures
        covered(shifted_regions(element), x, y) <==> exists|r: int| hides(element, r, x, y),
        covered(clipped(shifted_regions(element), output), x, y) <==> exists|r: int|
            hides(element, r, x, y),
{
    let regions = shifted_regions(element);
    assert(output.covers(x, y));
    clipping_keeps_the_output(regions, output, x, y);
    assert forall|r: int| 0 <= r < regions.len() implies (#[trigger] regions[r]).covers(x, y)
        == hides(element, r, x, y) by {
        assert(regions[r] == shifted(element.opaque_regions@[r], element.info));
        assert(element.opaque_regions@[r].loc.plus_fits(element.info.geometry.loc));
    }
    if exists|r: int| hides(element, r, x, y) {
        let r = choose|r: int| hides(element, r, x, y);
        assert(regions[r].covers(x, y));
    }
    if covered(regions, x, y) {
        let r = choose|r: int| 0 <= r < regions.len() && (#[trigger] regions[r]).covers(x, y);
        assert(hides(element, r, x, y));
    }
}

proof fn lemma_hidden_more(elements: Seq<Element>, n: int, x: int, y: int)
    requires
        0 <= n < elements.len(),
    ensures
        hidden_at(elements, n + 1, x, y) <==> hidden_at(elements, n, x, y) || exists|r: int|
            hides(elements[n], r, x, y),
{
    if hidden_at(elements, n + 1, x, y) {
        let (j, r) = choose|j: int, r: int|
            0 <= j < n + 1 && #[trigger] hides(elements[j], r, x, y);
        if j < n {
            assert(hidden_at(elements, n, x, y));
        }
    }
}

proof fn lemma_covered_more(a: Seq<Rectangle>, b: Seq<Rectangle>, x: int, y: int)
    ensures
        covered(a + b, x, y) <==> covered(a, x, y) || covered(b, x, y),
{
    let both = a + b;
    if covered(a, x, y) {
        let i = choose|i: int| 0 <= i < a.len() && (#[trigger] a[i]).covers(x, y);
        assert(both[i].covers(x, y));
    }
    if covered(b, x, y) {
        let i = choose|i: int| 0 <= i < b.len() && (#[trigger] b[i]).covers(x, y);
        assert(both[a.len() + i].covers(x, y));
    }
    if covered(both, x, y) {
        let i = choose|i: int| 0 <= i < both.len() && (#[trigger] both[i]).covers(x, y);
        if i < a.len() {
            assert(a[i].covers(x, y));
        } else {
            assert(b[i - a.len()].covers(x, y));
        }
    }
}

/// What is known to be covered is hidden, all of it once the search is complete; and what is hidden
/// by regions within their elements is known to be covered.
proof fn lemma_cover(elements: Seq<Element>, n: int, output: Rectangle, clear_color: Color32F)
    requires
        are_searchable(elements, output),
        0 <= n <= elements.len(),
    ensures
        ({
            let found = all_sighted(elements.take(n), output, clear_color);
            &&& forall|x: int, y: int| #[trigger]
                lies_in(output, x, y) ==> {
                    &&& covered(found.opaque, x, y) ==> hidden_at(elements, n, x, y)
                    &&& found.complete ==> covered(found.opaque, x, y)
                    &&& are_within(elements) && hidden_at(elements, n, x, y) ==> covered(
                        found.opaque,
                        x,
                        y,
                    )
                }
        }),
    decreases n,
{
    let found = all_sighted(elements.take(n), output, clear_color);
    if n > 0 {
        let upto = elements.take(n);
        let element = elements[n - 1];
        assert(upto.drop_last() =~= elements.take(n - 1));
        assert(upto.last() == element);
        lemma_cover(elements, n - 1, output, clear_color);
        let before = all_sighted(elements.take(n - 1), output, clear_color);
        assert(found == sighted(before, element, output));
        assert forall|x: int, y: int| #[trigger] lies_in(output, x, y) implies {
            &&& covered(found.opaque, x, y) ==> hidden_at(elements, n, x, y)
            &&& found.complete ==> covered(found.opaque, x, y)
            &&& are_within(elements) && hidden_at(elements, n, x, y) ==> covered(found.opaque, x, y)
        } by {
            lemma_cover_step(elements, n, output, before, x, y);
        }
    } else {
        assert(elements.take(0) =~= Seq::empty());
    }
}

proof fn lemma_cover_step(
    elements: Seq<Element>,
    n: int,
    output: Rectangle,
    before: Sighting,
    x: int,
    y: int,
)
    requires
        are_searchable(elements, output),
        0 < n <= elements.len(),
        lies_in(output, x, y),
        covered(before.opaque, x, y) ==> hidden_at(elements, n - 1, x, y),
        before.complete ==> covered(before.opaque, x, y),
        are_within(elements) && hidden_at(elements, n - 1, x, y) ==> covered(before.opaque, x, y),
    ensures
        ({
            let found = sighted(before, elements[n - 1], output);
            &&& covered(found.opaque, x, y) ==> hidden_at(elements, n, x, y)
            &&& found.complete ==> covered(found.opaque, x, y)
            &&& are_within(elements) && hidden_at(elements, n, x, y) ==> covered(found.opaque, x, y)
        }),
{
    let element = elements[n - 1];
    let found = sighted(before, element, output);
    lemma_hidden_more(elements, n - 1, x, y);
    lemma_on_output(element, output, x, y);
    if on_output(element, output) {
        let part = element.info.geometry.intersection_spec(output)->0;
        let new = clipped(shifted_regions(element), output);
        lemma_regions(element, output, x, y);
        lemma_covered_more(before.opaque, new, x, y);
        if !before.complete {
            visible_pixels_are_bounded_here(element, output, before.opaque);
            if uncovered_pixels(part, before.opaque).len() == 0 {
                if are_within(elements) && exists|r: int| hides(element, r, x, y) {
                    assert(part.covers(x, y));
                    if !covered(before.opaque, x, y) {
                        assert(uncovered_pixels(part, before.opaque).contains((x, y)));
                        assert(false);
                    }
                }
            } else {
                assert(found.opaque == before.opaque + new);
                if found.complete {
                    assert(part.contains_spec(output));
                    assert(part.covers(x, y));
                    assert(covered(shifted_regions(element), x, y));
                }
            }
        }
    }
}

proof fn visible_pixels_are_bounded_here(
    element: Element,
    output: Rectangle,
    opaque: Seq<Rectangle>,
)
    requires
        searchable(output),
        placeable(element),
        on_output(element, output),
    ensures
        ({
            let part = element.info.geometry.intersection_spec(output)->0;
            uncovered_pixels(part, opaque).finite() && part.regular() && uncovered_pixels(
                part,
                opaque,
            ).len() <= i32::MAX
        }),
{
    let part = element.info.geometry.intersection_spec(output)->0;
    assert(0 <= part.size.w <= output.size.w);
    assert(0 <= part.size.h <= output.size.h);
    visible_pixels_are_bounded(part, opaque);
    assert(part.size.w * part.size.h <= output.size.w * output.size.h) by (nonlinear_arith)
        requires
            0 <= part.size.w <= output.size.w,
            0 <= part.size.h <= output.size.h,
    ;
}

proof fn lemma_nonempty(
    part: Rectangle,
    opaque: Seq<Rectangle>,
    pixel: (int, int),
    output: Rectangle,
    element: Element,
)
    requires
        searchable(output),
        placeable(element),
        on_output(element, output),
        part == element.info.geometry.intersection_spec(output)->0,
        uncovered_pixels(part, opaque).contains(pixel),
    ensures
        uncovered_pixels(part, opaque).len() > 0,
        uncovered_pixels(part, opaque).len() as usize == uncovered_pixels(part, opaque).len(),
{
    visible_pixels_are_bounded_here(element, output, opaque);
    if uncovered_pixels(part, opaque).len() == 0 {
        assert(false);
    }
}

/// What was found stays found.
proof fn lemma_kept(
    elements: Seq<Element>,
    n: int,
    m: int,
    output: Rectangle,
    clear_color: Color32F,
)
    requires
        0 <= n <= m <= elements.len(),
    ensures
        ({
            let before = all_sighted(elements.take(n), output, clear_color);
            let after = all_sighted(elements.take(m), output, clear_color);
            &&& before.visible.len() <= after.visible.len()
            &&& forall|i: int|
                0 <= i < before.visible.len() ==> #[trigger] after.visible[i] == before.visible[i]
            &&& before.complete ==> after.complete && after.clear_color == before.clear_color
        }),
    decreases m - n,
{
    if n < m {
        lemma_kept(elements, n, m - 1, output, clear_color);
        let upto = elements.take(m);
        assert(upto.drop_last() =~= elements.take(m - 1));
    }
}

/// Of elements with regions within them, what is left uncovered is what can be seen.
proof fn lemma_sight(elements: Seq<Element>, k: int, output: Rectangle, clear_color: Color32F)
    requires
        are_searchable(elements, output),
        are_within(elements),
        0 <= k < elements.len(),
    ensures
        ({
            let before = all_sighted(elements.take(k), output, clear_color);
            &&& on_output(elements[k], output) ==> uncovered_pixels(
                elements[k].info.geometry.intersection_spec(output)->0,
                before.opaque,
            ) =~= sight(elements, k, output)
            &&& !on_output(elements[k], output) || before.complete ==> sight(elements, k, output)
                =~= Set::empty()
        }),
{
    let before = all_sighted(elements.take(k), output, clear_color);
    let element = elements[k];
    lemma_cover(elements, k, output, clear_color);
    let seen = sight(elements, k, output);
    let part = element.info.geometry.intersection_spec(output)->0;
    assert forall|p: (int, int)| on_output(element, output) implies uncovered_pixels(
        part,
        before.opaque,
    ).contains(p) == seen.contains(p) by {
        intersection_holds_the_shared_pixels(element.info.geometry, output, p.0, p.1);
        if output.covers(p.0, p.1) {
            assert(lies_in(output, p.0, p.1));
            lemma_on_output(element, output, p.0, p.1);
        }
        if lies_in(output, p.0, p.1) {
            lemma_on_output(element, output, p.0, p.1);
        }
    }
    assert forall|p: (int, int)| !on_output(element, output) || before.complete implies !seen.contains(
        p,
    ) by {
        if lies_in(output, p.0, p.1) {
            lemma_on_output(element, output, p.0, p.1);
        }
    }
}

proof fn lemma_solid(element: Element, output: Rectangle)
    requires
        searchable(output),
        placeable(element),
        on_output(element, output),
    ensures
        hides_all_behind(element, element.info.geometry.intersection_spec(output)->0) == is_solid(
            element,
            output,
        ),
{
    let part = element.info.geometry.intersection_spec(output)->0;
    if hides_all_behind(element, part) {
        assert forall|x: int, y: int|
            lies_in(element.info.geometry, x, y) && #[trigger] lies_in(output, x, y) implies exists|
            r: int,
        |
            hides(element, r, x, y) by {
            lemma_on_output(element, output, x, y);
            assert(part.covers(x, y));
            lemma_regions(element, output, x, y);
        }
    }
    if is_solid(element, output) {
        assert forall|x: int, y: int| #[trigger] part.covers(x, y) implies covered(
            shifted_regions(element),
            x,
            y,
        ) by {
            intersection_holds_the_shared_pixels(element.info.geometry, output, x, y);
            assert(lies_in(output, x, y));
            lemma_on_output(element, output, x, y);
            lemma_regions(element, output, x, y);
        }
    }
}

proof fn lemma_seen(elements: Seq<Element>, n: int, output: Rectangle, clear_color: Color32F) -> (from:
    Seq<int>)
    requires
        are_searchable(elements, output),
        are_within(elements),
        0 <= n <= elements.len(),
    ensures
        are_seen(
            elements,
            output,
            all_sighted(elements.take(n), output, clear_color).visible,
            from,
        ),
        forall|m: int| 0 <= m < from.len() ==> #[trigger] from[m] < n,
    decreases n,
{
    if n == 0 {
        assert(elements.take(0) =~= Seq::empty());
        Seq::empty()
    } else {
        let upto = elements.take(n);
        assert(upto.drop_last() =~= elements.take(n - 1));
        assert(upto.last() == elements[n - 1]);
        let front = lemma_seen(elements, n - 1, output, clear_color);
        let before = all_sighted(elements.take(n - 1), output, clear_color);
        let found = all_sighted(upto, output, clear_color);
        lemma_sight(elements, n - 1, output, clear_color);
        if found.visible.len() == before.visible.len() {
            assert(found.visible =~= before.visible);
            front
        } else {
            let element = elements[n - 1];
            visible_pixels_are_bounded_here(element, output, before.opaque);
            lemma_solid(element, output);
            let from = front.push(n - 1);
            assert forall|m: int| 0 <= m < found.visible.len() implies #[trigger] is_seen_as(
                elements,
                from[m],
                output,
                found.visible[m],
            ) by {
                if m < before.visible.len() {
                    assert(is_seen_as(elements, front[m], output, before.visible[m]));
                }
            }
            from
        }
    }
}

proof fn lemma_clear(elements: Seq<Element>, n: int, output: Rectangle, clear_color: Color32F)
    requires
        are_searchable(elements, output),
        0 <= n <= elements.len(),
    ensures
        ({
            let found = all_sighted(elements.take(n), output, clear_color);
            found.clear_color == clear_color || exists|k: int|
                0 <= k < n && is_solid(#[trigger] elements[k], output) && spans(elements[k], output)
                    && elements[k].info.single_pixel == Some(found.clear_color)
        }),
    decreases n,
{
    if n == 0 {
        assert(elements.take(0) =~= Seq::empty());
    } else {
        let upto = elements.take(n);
        let element = elements[n - 1];
        assert(upto.drop_last() =~= elements.take(n - 1));
        assert(upto.last() == element);
        lemma_clear(elements, n - 1, output, clear_color);
        let before = all_sighted(elements.take(n - 1), output, clear_color);
        let found = all_sighted(upto, output, clear_color);
        if found.clear_color != before.clear_color {
            lemma_solid(element, output);
            assert forall|x: int, y: int| #[trigger] lies_in(output, x, y) implies lies_in(
                element.info.geometry,
                x,
                y,
            ) by {
                lemma_on_output(element, output, x, y);
            }
            assert(is_solid(elements[n - 1], output));
        }
    }
}

proof fn lemma_reported(
    elements: Seq<Element>,
    k: int,
    n: int,
    output: Rectangle,
    clear_color: Color32F,
)
    requires
        are_searchable(elements, output),
        0 <= k < elements.len(),
        0 <= n <= elements.len(),
        forall|j: int|
            0 <= j < elements.len() && j != k ==> (#[trigger] elements[j]).info.id
                != elements[k].info.id,
    ensures
        ({
            let states = all_sighted(elements.take(n), output, clear_color).states;
            let id = elements[k].info.id;
            &&& n <= k ==> !states.contains_key(id)
            &&& states.contains_key(id) && states[id].presentation_state
                == RenderElementPresentationState::Skipped ==> sight(elements, k, output)
                =~= Set::empty() && states[id].visible_area == 0
            &&& n > k && sight(elements, k, output) =~= Set::empty() && are_within(elements)
                && on_output(elements[k], output) ==> states.contains_key(id)
                && states[id].presentation_state == RenderElementPresentationState::Skipped
        }),
    decreases n,
{
    if n == 0 {
        assert(elements.take(0) =~= Seq::empty());
    } else {
        let upto = elements.take(n);
        let element = elements[n - 1];
        assert(upto.drop_last() =~= elements.take(n - 1));
        assert(upto.last() == element);
        lemma_reported(elements, k, n - 1, output, clear_color);
        let before = all_sighted(elements.take(n - 1), output, clear_color);
        if n - 1 == k {
            lemma_cover(elements, k, output, clear_color);
            if are_within(elements) {
                lemma_sight(elements, k, output, clear_color);
            }
            if on_output(element, output) {
                visible_pixels_are_bounded_here(element, output, before.opaque);
            }
            let seen = sight(elements, k, output);
            let found = all_sighted(upto, output, clear_color);
            if found.states.contains_key(element.info.id)
                && found.states[element.info.id].presentation_state
                == RenderElementPresentationState::Skipped {
                assert forall|p: (int, int)| !seen.contains(p) by {
                    if seen.contains(p) {
                        lemma_on_output(element, output, p.0, p.1);
                        let part = element.info.geometry.intersection_spec(output)->0;
                        assert(uncovered_pixels(part, before.opaque).contains(p));
                        assert(false);
                    }
                }
            }
        } else {
            assert(element.info.id != elements[k].info.id);
        }
    }
}

} // verus!
