use compositor_core::effects::{below_framebuffer_effect, collect_framebuffer_effect_regions};
use compositor_core::geometry::{Point, Rectangle, Size};

fn rect(x: i32, y: i32, w: i32, h: i32) -> Rectangle {
    Rectangle::new(Point::from((x, y)), Size::from((w, h)))
}

/// The whole screen, so a stack built from it overlaps everywhere.
fn full() -> Rectangle {
    rect(0, 0, 100, 100)
}

fn scan(elements: &[(bool, Rectangle)]) -> Vec<(usize, Rectangle)> {
    let mut out = Vec::new();
    collect_framebuffer_effect_regions(&mut out, elements);
    out
}

#[test]
fn the_scan_keeps_every_effect_in_front_to_back_order() {
    let ordinary = rect(0, 0, 10, 10);
    let effect = rect(1, 1, 20, 20);

    assert_eq!(
        scan(&[(false, ordinary), (true, effect), (false, ordinary)]),
        [(1, effect)],
        "the single effect is kept at its own index",
    );
    assert!(
        scan(&[(false, ordinary), (false, ordinary)]).is_empty(),
        "no effect on screen must never suppress anything",
    );
    assert_eq!(
        scan(&[(true, effect), (false, ordinary), (false, ordinary)]),
        [(0, effect)],
    );
    let lower_effect = rect(2, 2, 30, 30);
    assert_eq!(
        scan(&[(true, effect), (false, ordinary), (true, lower_effect)]),
        [(0, effect), (2, lower_effect)],
        "both stacked effects are kept, not just one",
    );
}

#[test]
fn the_scan_refills_the_callers_buffer_and_never_replaces_it() {
    let effect = full();
    let stack = [(false, full()), (true, effect), (true, effect)];
    let mut buffer = Vec::with_capacity(64);
    let seeded = buffer.capacity();
    assert!(seeded >= 64, "the seed must exceed what the fill needs");

    for _ in 0..8 {
        collect_framebuffer_effect_regions(&mut buffer, &stack);
        assert_eq!(buffer.len(), 2, "each pass refills from scratch");
        assert_eq!(
            buffer.capacity(),
            seeded,
            "the caller's allocation must be reused, not replaced",
        );
    }

    collect_framebuffer_effect_regions(&mut buffer, &[(false, full())]);
    assert!(buffer.is_empty(), "the buffer carries no state between frames");
    assert_eq!(buffer.capacity(), seeded, "emptying must not drop the allocation");
}

#[test]
fn below_is_a_greater_index_and_an_overlap() {
    let effect = full();
    let regions = [(1usize, effect)];

    assert!(
        below_framebuffer_effect(2, full(), &regions),
        "an element after the effect is below it",
    );
    assert!(
        !below_framebuffer_effect(0, full(), &regions),
        "an element before the effect is above it",
    );
    assert!(
        !below_framebuffer_effect(1, full(), &regions),
        "the effect's own index is not below itself; it is refused one line earlier",
    );
    assert!(
        !below_framebuffer_effect(2, full(), &[]),
        "with no effect on screen nothing is below one",
    );
}

#[test]
fn a_lower_element_clear_of_the_effect_is_left_alone() {
    let regions = [(0usize, rect(0, 0, 10, 10))];

    assert!(
        !below_framebuffer_effect(1, rect(50, 50, 10, 10), &regions),
        "a lower element that does not overlap the effect is not sampled by it",
    );
    assert!(
        !below_framebuffer_effect(1, rect(10, 0, 10, 10), &regions),
        "edge-adjacent contributes no pixels inside the effect's region",
    );
    assert!(
        below_framebuffer_effect(1, rect(9, 0, 10, 10), &regions),
        "one column of genuine overlap is enough",
    );
}

#[test]
fn the_two_composed_answer_the_ticket() {
    let stack = [(false, full()), (true, full()), (false, full())];
    let regions = scan(&stack);
    let verdicts: Vec<bool> = stack
        .iter()
        .enumerate()
        .map(|(index, (_, geometry))| below_framebuffer_effect(index, *geometry, &regions))
        .collect();
    assert_eq!(
        verdicts,
        vec![false, false, true],
        "only the element below the effect is refused a plane",
    );

    let clear = [
        (false, full()),
        (true, rect(0, 0, 10, 10)),
        (false, rect(50, 50, 10, 10)),
    ];
    let regions = scan(&clear);
    let verdicts: Vec<bool> = clear
        .iter()
        .enumerate()
        .map(|(index, (_, geometry))| below_framebuffer_effect(index, *geometry, &regions))
        .collect();
    assert_eq!(
        verdicts,
        vec![false, false, false],
        "a lower element clear of the effect keeps its plane",
    );
}
