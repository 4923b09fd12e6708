//! Regions of pixels, held as lists of rectangles.

use vstd::prelude::*;
use vstd::set_lib::*;
use crate::geometry::{intersection_holds_the_shared_pixels, Point, Rectangle, Size};

verus! {

/// Whether some rectangle of the list covers the pixel at `(x, y)`.
pub open spec fn covered(rects: Seq<Rectangle>, x: int, y: int) -> bool {
    exists|i: int| 0 <= i < rects.len() && (#[trigger] rects[i]).covers(x, y)
}

/// Whether no pixel is covered by two rectangles of the list.
pub open spec fn disjoint(rects: Seq<Rectangle>) -> bool {
    forall|i: int, j: int, x: int, y: int|
        0 <= i < j < rects.len() && (#[trigger] rects[i].covers(x, y)) ==> !(
        #[trigger] rects[j].covers(x, y))
}

/// The pixels of `rect` that the list leaves uncovered.
pub open spec fn uncovered_pixels(rect: Rectangle, others: Seq<Rectangle>) -> Set<(int, int)> {
    Set::new(|p: (int, int)| rect.covers(p.0, p.1) && !covered(others, p.0, p.1))
}

/// The pixels that the list covers.
pub open spec fn covered_pixels(rects: Seq<Rectangle>) -> Set<(int, int)> {
    Set::new(|p: (int, int)| covered(rects, p.0, p.1))
}

pub open spec fn all_regular(rects: Seq<Rectangle>) -> bool {
    forall|i: int| 0 <= i < rects.len() ==> (#[trigger] rects[i]).regular()
}

pub open spec fn positive(rect: Rectangle) -> bool {
    rect.size.w > 0 && rect.size.h > 0
}

pub open spec fn all_positive(rects: Seq<Rectangle>) -> bool {
    forall|i: int| 0 <= i < rects.len() ==> positive(#[trigger] rects[i])
}

/// The area of a rectangle as the product of its sides.
pub open spec fn area(rect: Rectangle) -> int {
    rect.size.w * rect.size.h
}

pub open spec fn area_sum(rects: Seq<Rectangle>) -> int
    decreases rects.len(),
{
    if rects.len() == 0 {
        0
    } else {
        area_sum(rects.drop_last()) + area(rects.last())
    }
}

proof fn lemma_push(rects: Seq<Rectangle>, rect: Rectangle)
    ensures
        forall|x: int, y: int| #[trigger]
            covered(rects.push(rect), x, y) <==> covered(rects, x, y) || rect.covers(x, y),
        (disjoint(rects) && forall|x: int, y: int|
            #[trigger] covered(rects, x, y) ==> !rect.covers(x, y)) ==> disjoint(rects.push(rect)),
        all_regular(rects) && rect.regular() ==> all_regular(rects.push(rect)),
        all_positive(rects) && positive(rect) ==> all_positive(rects.push(rect)),
{
    let pushed = rects.push(rect);
    assert forall|x: int, y: int| #[trigger]
        covered(pushed, x, y) <==> covered(rects, x, y) || rect.covers(x, y) by {
        if covered(pushed, x, y) {
            let i = choose|i: int| 0 <= i < pushed.len() && (#[trigger] pushed[i]).covers(x, y);
            if i < rects.len() {
                assert(rects[i].covers(x, y));
            }
        }
        if covered(rects, x, y) {
            let i = choose|i: int| 0 <= i < rects.len() && (#[trigger] rects[i]).covers(x, y);
            assert(pushed[i].covers(x, y));
        }
        if rect.covers(x, y) {
            assert(pushed[rects.len() as int].covers(x, y));
        }
    }
    if disjoint(rects) && forall|x: int, y: int|
        #[trigger] covered(rects, x, y) ==> !rect.covers(x, y) {
        assert forall|i: int, j: int, x: int, y: int|
            0 <= i < j < pushed.len() && (#[trigger] pushed[i].covers(x, y)) implies !(
        #[trigger] pushed[j].covers(x, y)) by {
            assert(rects[i].covers(x, y));
            assert(covered(rects, x, y));
        }
    }
}

/// Splits what is left of `rect` outside of `hole` into at most four bands, appended to `out`.
fn push_remainder(out: &mut Vec<Rectangle>, rect: Rectangle, hole: Rectangle)
    requires
        rect.regular(),
        all_regular(old(out)@),
        disjoint(old(out)@),
        forall|x: int, y: int| #[trigger] covered(old(out)@, x, y) ==> !rect.covers(x, y),
    ensures
        all_regular(final(out)@),
        disjoint(final(out)@),
        forall|x: int, y: int| #[trigger]
            covered(final(out)@, x, y) <==> covered(old(out)@, x, y) || (rect.covers(x, y)
                && !hole.covers(x, y)),
        positive(rect) && all_positive(old(out)@) ==> all_positive(final(out)@),
{
    let shared = match rect.intersection(hole) {
        Some(shared) => if shared.size.w > 0 && shared.size.h > 0 {
            shared
        } else {
            proof {
                assert forall|x: int, y: int| rect.covers(x, y) && hole.covers(x, y) implies false by {
                    intersection_holds_the_shared_pixels(rect, hole, x, y);
                }
                lemma_push(out@, rect);
            }
            out.push(rect);
            return;
        },
        None => {
            proof {
                assert forall|x: int, y: int| rect.covers(x, y) && hole.covers(x, y) implies false by {
                    intersection_holds_the_shared_pixels(rect, hole, x, y);
                }
                lemma_push(out@, rect);
            }
            out.push(rect);
            return;
        },
    };
    let left: i32 = rect.loc.x;
    let top: i32 = rect.loc.y;
    let right: i32 = rect.loc.x + rect.size.w;
    let bottom: i32 = rect.loc.y + rect.size.h;
    let hole_left: i32 = shared.loc.x;
    let hole_top: i32 = shared.loc.y;
    let hole_right: i32 = shared.loc.x + shared.size.w;
    let hole_bottom: i32 = shared.loc.y + shared.size.h;
    let above = Rectangle {
        loc: Point { x: left, y: top },
        size: Size { w: rect.size.w, h: hole_top - top },
    };
    let before = Rectangle {
        loc: Point { x: left, y: hole_top },
        size: Size { w: hole_left - left, h: shared.size.h },
    };
    let after = Rectangle {
        loc: Point { x: hole_right, y: hole_top },
        size: Size { w: right - hole_right, h: shared.size.h },
    };
    let below = Rectangle {
        loc: Point { x: left, y: hole_bottom },
        size: Size { w: rect.size.w, h: bottom - hole_bottom },
    };
    proof {
        assert forall|x: int, y: int| #[trigger] shared.covers(x, y) <==> (rect.covers(x, y)
            && hole.covers(x, y)) by {
            intersection_holds_the_shared_pixels(rect, hole, x, y);
        }
        assert forall|x: int, y: int| rect.covers(x, y) && !hole.covers(x, y) <==> (above.covers(
            x,
            y,
        ) || before.covers(x, y) || after.covers(x, y) || below.covers(x, y)) by {
            assert(shared.covers(x, y) <==> (rect.covers(x, y) && hole.covers(x, y)));
        }
    }
    if hole_top > top {
        proof {
            lemma_push(out@, above);
        }
        out.push(above);
    }
    if hole_left > left {
        proof {
            lemma_push(out@, before);
        }
        out.push(before);
    }
    if right > hole_right {
        proof {
            lemma_push(out@, after);
        }
        out.push(after);
    }
    if bottom > hole_bottom {
        proof {
            lemma_push(out@, below);
        }
        out.push(below);
    }
}

/// The part of `rect` that no rectangle of `others` covers, as disjoint rectangles.
pub fn subtract_rects_many(rect: Rectangle, others: &Vec<Rectangle>) -> (r: Vec<Rectangle>)
    requires
        rect.regular(),
    ensures
        all_regular(r@),
        disjoint(r@),
        forall|x: int, y: int| #[trigger]
            covered(r@, x, y) <==> rect.covers(x, y) && !covered(others@, x, y),
        positive(rect) ==> all_positive(r@),
{
    let mut rects: Vec<Rectangle> = Vec::new();
    proof {
        lemma_push(rects@, rect);
    }
    rects.push(rect);
    let mut n: usize = 0;
    while n < others.len()
        invariant
            n <= others.len(),
            all_regular(rects@),
            disjoint(rects@),
            positive(rect) ==> all_positive(rects@),
            forall|x: int, y: int| #[trigger]
                covered(rects@, x, y) <==> rect.covers(x, y) && !covered(others@.take(n as int), x, y),
        decreases others.len() - n,
    {
        let hole = others[n];
        let mut next: Vec<Rectangle> = Vec::new();
        let mut i: usize = 0;
        while i < rects.len()
            invariant
                i <= rects.len(),
                all_regular(rects@),
                disjoint(rects@),
                all_regular(next@),
                disjoint(next@),
                positive(rect) ==> all_positive(rects@),
                positive(rect) ==> all_positive(next@),
                forall|x: int, y: int| #[trigger]
                    covered(next@, x, y) <==> covered(rects@.take(i as int), x, y) && !hole.covers(
                        x,
                        y,
                    ),
            decreases rects.len() - i,
        {
            proof {
                lemma_push(rects@.take(i as int), rects[i as int]);
                assert(rects@.take(i as int).push(rects[i as int]) =~= rects@.take(i as int + 1));
                assert forall|x: int, y: int| #[trigger] covered(next@, x, y) implies !rects[i as int].covers(
                    x,
                    y,
                ) by {
                    let before = rects@.take(i as int);
                    let j = choose|j: int| 0 <= j < before.len() && (#[trigger] before[j]).covers(x, y);
                    assert(rects[j].covers(x, y));
                }
            }
            push_remainder(&mut next, rects[i], hole);
            i = i + 1;
        }
        proof {
            assert(rects@.take(rects@.len() as int) =~= rects@);
            lemma_push(others@.take(n as int), hole);
            assert(others@.take(n as int).push(hole) =~= others@.take(n as int + 1));
        }
        rects = next;
        n = n + 1;
    }
    proof {
        assert(others@.take(others@.len() as int) =~= others@);
    }
    rects
}

proof fn lemma_row(x: int, w: nat, y: int)
    ensures
        Set::<(int, int)>::new(|p: (int, int)| x <= p.0 < x + w && p.1 == y).finite(),
        Set::<(int, int)>::new(|p: (int, int)| x <= p.0 < x + w && p.1 == y).len() == w,
    decreases w,
{
    let row = Set::<(int, int)>::new(|p: (int, int)| x <= p.0 < x + w && p.1 == y);
    if w == 0 {
        assert(row =~= Set::empty());
    } else {
        lemma_row(x, (w - 1) as nat, y);
        let shorter = Set::<(int, int)>::new(|p: (int, int)| x <= p.0 < x + (w - 1) && p.1 == y);
        assert(row =~= shorter.insert((x + w - 1, y)));
    }
}

proof fn lemma_block(x: int, y: int, w: nat, h: nat)
    ensures
        Set::<(int, int)>::new(|p: (int, int)| x <= p.0 < x + w && y <= p.1 < y + h).finite(),
        Set::<(int, int)>::new(|p: (int, int)| x <= p.0 < x + w && y <= p.1 < y + h).len() == w * h,
    decreases h,
{
    let block = Set::<(int, int)>::new(|p: (int, int)| x <= p.0 < x + w && y <= p.1 < y + h);
    if h == 0 {
        assert(block =~= Set::empty());
        assert(w * h == 0) by (nonlinear_arith)
            requires
                h == 0,
        ;
    } else {
        lemma_block(x, y, w, (h - 1) as nat);
        lemma_row(x, w, y + h - 1);
        let shorter = Set::<(int, int)>::new(
            |p: (int, int)| x <= p.0 < x + w && y <= p.1 < y + (h - 1),
        );
        let row = Set::<(int, int)>::new(|p: (int, int)| x <= p.0 < x + w && p.1 == y + h - 1);
        assert(block =~= shorter.union(row));
        lemma_set_disjoint_lens(shorter, row);
        assert(w * h == w * (h - 1) + w) by (nonlinear_arith);
    }
}

/// Disjoint regular rectangles cover as many pixels as their areas add up to.
pub proof fn area_counts_the_pixels(rects: Seq<Rectangle>)
    requires
        all_regular(rects),
        disjoint(rects),
    ensures
        covered_pixels(rects).finite(),
        covered_pixels(rects).len() == area_sum(rects),
    decreases rects.len(),
{
    if rects.len() == 0 {
        assert(covered_pixels(rects) =~= Set::empty());
    } else {
        let front = rects.drop_last();
        let rect = rects.last();
        assert forall|i: int| 0 <= i < front.len() implies (#[trigger] front[i]).regular() by {
            assert(rects[i].regular());
        }
        assert forall|i: int, j: int, x: int, y: int|
            0 <= i < j < front.len() && (#[trigger] front[i].covers(x, y)) implies !(
        #[trigger] front[j].covers(x, y)) by {
            assert(rects[i].covers(x, y));
            assert(!rects[j].covers(x, y));
        }
        area_counts_the_pixels(front);
        lemma_block(rect.loc.x as int, rect.loc.y as int, rect.size.w as nat, rect.size.h as nat);
        let block = Set::<(int, int)>::new(
            |p: (int, int)|
                rect.loc.x <= p.0 < rect.loc.x + rect.size.w as nat && rect.loc.y <= p.1
                    < rect.loc.y + rect.size.h as nat,
        );
        assert(rects[rects.len() - 1].regular());
        lemma_push(front, rect);
        assert(front.push(rect) =~= rects);
        assert(covered_pixels(rects) =~= covered_pixels(front).union(block)) by {
            assert forall|p: (int, int)| covered_pixels(rects).contains(p) == covered_pixels(
                front,
            ).union(block).contains(p) by {
                assert(covered(rects, p.0, p.1) <==> covered(front, p.0, p.1) || rect.covers(
                    p.0,
                    p.1,
                ));
            }
        }
        assert(covered_pixels(front).disjoint(block)) by {
            assert forall|p: (int, int)| covered_pixels(front).contains(p) implies !block.contains(p) by {
                let i = choose|i: int|
                    0 <= i < front.len() && (#[trigger] front[i]).covers(p.0, p.1);
                assert(rects[i].covers(p.0, p.1));
                assert(!rects[rects.len() - 1].covers(p.0, p.1));
            }
        }
        lemma_set_disjoint_lens(covered_pixels(front), block);
    }
}

proof fn lemma_area_bounds(rects: Seq<Rectangle>, n: int)
    requires
        all_regular(rects),
        0 <= n <= rects.len(),
    ensures
        0 <= area_sum(rects.take(n)) <= area_sum(rects),
        forall|i: int| 0 <= i < rects.len() ==> 0 <= area(#[trigger] rects[i]) <= area_sum(rects),
    decreases rects.len(),
{
    if rects.len() == 0 {
        assert(rects.take(n) =~= rects);
    } else {
        let front = rects.drop_last();
        assert forall|i: int| 0 <= i < front.len() implies (#[trigger] front[i]).regular() by {
            assert(rects[i].regular());
        }
        assert(rects[rects.len() - 1].regular());
        let last = rects.last();
        assert(area(last) >= 0) by (nonlinear_arith)
            requires
                last.size.w >= 0,
                last.size.h >= 0,
                area(last) == last.size.w * last.size.h,
        ;
        if n == rects.len() {
            lemma_area_bounds(front, n - 1);
            assert(rects.take(n) =~= rects);
            assert(front.take(n - 1) =~= front);
        } else {
            lemma_area_bounds(front, n);
            assert(rects.take(n) =~= front.take(n));
        }
        assert forall|i: int| 0 <= i < rects.len() implies 0 <= area(#[trigger] rects[i])
            <= area_sum(rects) by {
            if i < front.len() {
                assert(rects[i] == front[i]);
            }
        }
    }
}

/// The number of pixels of `rect` that no rectangle of `others` covers.
pub fn visible_area(rect: Rectangle, others: &Vec<Rectangle>) -> (r: usize)
    requires
        rect.regular(),
        area(rect) <= i32::MAX,
    ensures
        r == uncovered_pixels(rect, others@).len(),
        uncovered_pixels(rect, others@).finite(),
{
    let rects = subtract_rects_many(rect, others);
    proof {
        area_counts_the_pixels(rects@);
        assert(covered_pixels(rects@) =~= uncovered_pixels(rect, others@)) by {
            assert forall|p: (int, int)| covered_pixels(rects@).contains(p) == uncovered_pixels(
                rect,
                others@,
            ).contains(p) by {
                assert(covered(rects@, p.0, p.1) <==> rect.covers(p.0, p.1) && !covered(
                    others@,
                    p.0,
                    p.1,
                ));
            }
        }
        let whole = seq![rect];
        area_counts_the_pixels(whole);
        assert(whole.drop_last() =~= Seq::empty());
        assert(area_sum(Seq::<Rectangle>::empty()) == 0);
        assert(area_sum(whole) == area(rect));
        assert(covered_pixels(rects@).subset_of(covered_pixels(whole))) by {
            assert forall|p: (int, int)| covered_pixels(rects@).contains(p) implies covered_pixels(
                whole,
            ).contains(p) by {
                assert(covered(rects@, p.0, p.1));
                assert(whole[0].covers(p.0, p.1));
            }
        }
        lemma_len_subset(covered_pixels(rects@), covered_pixels(whole));
        lemma_area_bounds(rects@, 0);
    }
    let mut total: usize = 0;
    let mut i: usize = 0;
    while i < rects.len()
        invariant
            i <= rects.len(),
            all_regular(rects@),
            total == area_sum(rects@.take(i as int)),
            area_sum(rects@) <= i32::MAX,
        decreases rects.len() - i,
    {
        let size = rects[i].size;
        proof {
            lemma_area_bounds(rects@, i as int + 1);
            let upto = rects@.take(i as int + 1);
            assert(upto.drop_last() =~= rects@.take(i as int));
            assert(upto.last() == rects@[i as int]);
            assert(area(rects@[i as int]) == size.w * size.h);
        }
        let piece: i32 = size.w * size.h;
        total = total + piece as usize;
        i = i + 1;
    }
    proof {
        assert(rects@.take(rects@.len() as int) =~= rects@);
    }
    total
}

/// Whether `others` covers every pixel of `rect`.
pub fn fully_covered(rect: Rectangle, others: &Vec<Rectangle>) -> (r: bool)
    requires
        rect.regular(),
        positive(rect),
    ensures
        r <==> forall|x: int, y: int| #[trigger] rect.covers(x, y) ==> covered(others@, x, y),
{
    let rects = subtract_rects_many(rect, others);
    proof {
        if rects@.len() > 0 {
            let piece = rects@[0];
            assert(positive(piece) && piece.regular());
            let x = piece.loc.x as int;
            let y = piece.loc.y as int;
            assert(piece.covers(x, y));
            assert(covered(rects@, x, y));
            assert(rect.covers(x, y));
        } else {
            assert forall|x: int, y: int| #[trigger] rect.covers(x, y) implies covered(
                others@,
                x,
                y,
            ) by {
                assert(!covered(rects@, x, y));
            }
        }
    }
    rects.is_empty()
}

} // verus!
