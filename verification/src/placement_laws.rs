//! Where the elements of a frame may be shown.

use vstd::prelude::*;
use crate::attempt::ElementContext;
use crate::attempt_laws::allowed_assignment;
use crate::attempt_talk::stays_rendered;
use crate::core_state::CoreView;
use crate::effects::{effect_regions_spec, refused_exactly_below_an_effect};
use crate::element::{Color32F, Kind, OutputState, RenderingReason};
use crate::flags::FrameFlags;
use crate::frame_account::stood_for;
use crate::frame_build::{is_first_with_id, is_only_cursor, legacy_choice, FrameView};
use crate::frame_finish::{fallen_back, retreated};
use crate::legacy_cursor::LegacyCursorPresentation;
use crate::overlay_map::{has_key, inserted, key_index, key_index_is_first, key_removed};
use crate::plane::{PlaneAssignment, PlaneState, PlaneType};
use crate::prepared::{PrimaryPlaneElement, RenderFrameResult};
use crate::record::Exchange;
use crate::visibility::VisibleElement;

verus! {

/// Whether an element takes part in an effect: it is one, or an effect in front of it overlaps it.
pub open spec fn takes_part(visible: Seq<VisibleElement>, i: int) -> bool {
    visible[i].info.is_framebuffer_effect || exists|k: int|
        0 <= k < i && (#[trigger] visible[k]).info.is_framebuffer_effect
            && visible[k].info.geometry.overlaps_spec(visible[i].info.geometry)
}

/// Whether an element may be on an overlay plane: the flags admit it, and it takes part in no effect.
pub open spec fn may_be_overlay(visible: Seq<VisibleElement>, flags: FrameFlags, i: int) -> bool {
    &&& 0 <= i < visible.len()
    &&& !takes_part(visible, i)
    &&& flags.has_all(FrameFlags::ALLOW_OVERLAY_PLANE_SCANOUT)
    &&& visible[i].info.kind != Kind::Unspecified
}

/// Whether an element may be on a cursor plane: it is a cursor, the flags admit it, and it takes part
/// in no effect.
pub open spec fn may_be_cursor(visible: Seq<VisibleElement>, flags: FrameFlags, i: int) -> bool {
    &&& 0 <= i < visible.len()
    &&& !takes_part(visible, i)
    &&& flags.has_all(FrameFlags::ALLOW_CURSOR_PLANE_SCANOUT)
    &&& visible[i].info.kind == Kind::Cursor
}

/// Whether an element may be on the primary plane: it is the last one, it hides the whole output or
/// what lies beside it is what the device shows there anyway, the flags admit it, and it takes part
/// in no effect.
pub open spec fn may_be_primary(
    visible: Seq<VisibleElement>,
    output: OutputState,
    clear_color: Color32F,
    flags: FrameFlags,
    i: int,
) -> bool {
    &&& 0 <= i
    &&& i + 1 == visible.len()
    &&& !takes_part(visible, i)
    &&& flags.has_any(3)
    &&& clear_color.is_black_or_clear_spec() || (visible[i].info.geometry.contains_spec(
        output.geometry,
    ) && visible[i].is_opaque)
}

/// Whether everything that the frame does not render is where it may be.
#[verifier::opaque]
pub open spec fn placed_by_rule(view: FrameView) -> bool {
    &&& view.effect_regions == effect_regions_spec(
        view.visible.map_values(
            |e: VisibleElement| (e.info.is_framebuffer_effect, e.info.geometry),
        ),
    )
    &&& forall|k: int|
        0 <= k < view.overlay_elements.len() ==> may_be_overlay(
            view.visible,
            view.flags,
            (#[trigger] view.overlay_elements[k]).1 as int,
        )
    &&& view.cursor_element matches Some(i) ==> may_be_cursor(view.visible, view.flags, i as int)
    &&& view.primary_scanout matches Some(i) ==> may_be_primary(
        view.visible,
        view.output,
        view.clear_color,
        view.flags,
        i as int,
    )
    &&& view.legacy_index matches Some(i) ==> i < view.visible.len() && !takes_part(
        view.visible,
        i as int,
    ) && stood_for(view, i as int)
}

/// Whether the legacy cursor could not be taken off.
pub open spec fn disable_refused<A, B, F, R>(talk: Seq<Exchange<A, B, F, R>>) -> bool {
    exists|k: int|
        0 <= k < talk.len() && #[trigger] talk[k] is DisableCursor
            && talk[k]->DisableCursor_answer is Err
}

/// What was refused once stays refused.
pub proof fn refusals_stay<A, B, F, R>(
    talk: Seq<Exchange<A, B, F, R>>,
    from: int,
    to: int,
)
    requires
        0 <= from <= to <= talk.len(),
        disable_refused(talk.subrange(from, to)),
    ensures
        disable_refused(talk),
{
    let part = talk.subrange(from, to);
    let k = choose|k: int|
        0 <= k < part.len() && #[trigger] part[k] is DisableCursor
            && part[k]->DisableCursor_answer is Err;
    assert(talk[from + k] == part[k]);
}

/// Whether the legacy cursor that the frame presents is that of an element and admitted by the flags,
/// unless it could not be taken off.
pub open spec fn legacy_by_rule(view: FrameView, refused: bool) -> bool {
    &&& view.legacy_cursor is Some ==> view.legacy_index is Some || refused
    &&& view.legacy_index is Some ==> view.flags.has_all(FrameFlags::ALLOW_LEGACY_CURSOR) || refused
}

/// Whether the legacy cursor stands for an element that takes part in no effect.
pub open spec fn legacy_stands(
    visible: Seq<VisibleElement>,
    presentation: LegacyCursorPresentation,
    i: int,
) -> bool {
    &&& 0 <= i < visible.len()
    &&& !takes_part(visible, i)
    &&& is_only_cursor(visible, i) || is_first_with_id(visible, presentation.element_id, i)
}

/// Whether the result tells of no element on a plane that may not be there. What takes part in an
/// effect is on none, nor is it shown by the legacy cursor, unless an installed one could not be taken
/// off.
pub open spec fn result_by_rule(
    visible: Seq<VisibleElement>,
    output: OutputState,
    clear_color: Color32F,
    flags: FrameFlags,
    result: RenderFrameResult,
    refused: bool,
) -> bool {
    &&& forall|k: int|
        0 <= k < result.overlay_elements@.len() ==> may_be_overlay(
            visible,
            flags,
            (#[trigger] result.overlay_elements@[k]) as int,
        )
    &&& result.cursor_element matches Some(i) ==> may_be_cursor(visible, flags, i as int)
    &&& result.primary_element matches PrimaryPlaneElement::Element(i) ==> may_be_primary(
        visible,
        output,
        clear_color,
        flags,
        i as int,
    )
    &&& result.legacy_cursor matches Some(presentation) ==> refused || (flags.has_all(
        FrameFlags::ALLOW_LEGACY_CURSOR,
    ) && exists|i: int| #[trigger] legacy_stands(visible, presentation, i))
}

/// What is told stays true where more was refused.
pub proof fn refusals_take_nothing_back(
    visible: Seq<VisibleElement>,
    output: OutputState,
    clear_color: Color32F,
    flags: FrameFlags,
    result: RenderFrameResult,
    refused: bool,
    also_refused: bool,
)
    requires
        result_by_rule(visible, output, clear_color, flags, result, refused),
        refused ==> also_refused,
    ensures
        result_by_rule(visible, output, clear_color, flags, result, also_refused),
{
}

/// Taking part in an effect is what the frame in the making takes it for.
proof fn lemma_takes_part(view: FrameView, i: int)
    requires
        view.effect_regions == effect_regions_spec(
            view.visible.map_values(
                |e: VisibleElement| (e.info.is_framebuffer_effect, e.info.geometry),
            ),
        ),
        view.visible.len() <= usize::MAX,
        0 <= i < view.visible.len(),
    ensures
        view.in_effect(i) == takes_part(view.visible, i),
{
    let elements = view.visible.map_values(
        |e: VisibleElement| (e.info.is_framebuffer_effect, e.info.geometry),
    );
    refused_exactly_below_an_effect(elements, i);
    if takes_part(view.visible, i) && !view.visible[i].info.is_framebuffer_effect {
        let k = choose|k: int|
            0 <= k < i && (#[trigger] view.visible[k]).info.is_framebuffer_effect
                && view.visible[k].info.geometry.overlaps_spec(view.visible[i].info.geometry);
        assert(elements[k].0 && elements[k].1.overlaps_spec(elements[i].1));
    }
    if exists|k: int|
        0 <= k < i && (#[trigger] elements[k]).0 && elements[k].1.overlaps_spec(elements[i].1) {
        let k = choose|k: int|
            0 <= k < i && (#[trigger] elements[k]).0 && elements[k].1.overlaps_spec(elements[i].1);
        assert(view.visible[k].info.is_framebuffer_effect);
    }
}

/// A new frame has nothing where it may not be.
pub proof fn new_frames_are_placed_by_rule(view: FrameView, core: CoreView)
    requires
        legacy_choice(view, core),
        view.visible.len() <= usize::MAX,
        view.effect_regions == effect_regions_spec(
            view.visible.map_values(
                |e: VisibleElement| (e.info.is_framebuffer_effect, e.info.geometry),
            ),
        ),
        view.overlay_elements.len() == 0,
        view.cursor_element is None,
        view.primary_scanout is None,
        view.legacy_cursor is None,
    ensures
        placed_by_rule(view),
        legacy_by_rule(view, false),
{
    reveal(placed_by_rule);
    if let Some(i) = view.legacy_index {
        lemma_takes_part(view, i as int);
    }
}

/// Searches put elements where they may be.
pub proof fn searches_place_by_rule(
    view: FrameView,
    frame: Seq<(u32, PlaneState)>,
    base: Seq<(u32, PlaneState)>,
    ctx: ElementContext,
    start: CoreView,
    core: CoreView,
    result: Result<PlaneAssignment, Option<RenderingReason>>,
)
    requires
        placed_by_rule(view),
        core.wf(),
        view.visible.len() <= usize::MAX,
        view.index < view.visible.len(),
        ctx == view.context(start),
        stays_rendered(ctx) ==> result is Err,
        result matches Ok(assignment) ==> allowed_assignment(core, base, ctx, assignment),
    ensures
        placed_by_rule((FrameView { frame, ..view }).after_element(result)),
{
    reveal(placed_by_rule);
    let after = (FrameView { frame, ..view }).after_element(result);
    let i = view.index as int;
    lemma_takes_part(view, i);
    if let Some(l) = view.legacy_index {
        assert(stood_for(after, l as int));
    }
    if let Ok(plane) = result {
        assert(!takes_part(view.visible, i));
        match plane.type_ {
            PlaneType::Overlay => {
                assert(may_be_overlay(view.visible, view.flags, i));
                key_index_is_first(view.overlay_elements, plane.handle);
                let entries = inserted(view.overlay_elements, plane.handle, view.index);
                assert forall|k: int| 0 <= k < entries.len() implies may_be_overlay(
                    view.visible,
                    view.flags,
                    (#[trigger] entries[k]).1 as int,
                ) by {
                    if k < view.overlay_elements.len() {
                        assert(may_be_overlay(
                            view.visible,
                            view.flags,
                            view.overlay_elements[k].1 as int,
                        ));
                    }
                }
            },
            PlaneType::Primary => {
                assert(ctx.try_primary && ctx.flags.has_any(3));
            },
            PlaneType::Cursor => {
                assert(may_be_cursor(view.visible, view.flags, i));
            },
        }
    }
}

/// Only what is said about elements matters.
pub proof fn rules_are_about_elements(a: FrameView, b: FrameView)
    requires
        placed_by_rule(a),
        b.visible == a.visible,
        b.output == a.output,
        b.clear_color == a.clear_color,
        b.flags == a.flags,
        b.effect_regions == a.effect_regions,
        b.overlay_elements == a.overlay_elements,
        b.cursor_element == a.cursor_element,
        b.primary_scanout == a.primary_scanout,
        b.legacy_index == a.legacy_index,
        a.legacy_cursor is None || b.legacy_cursor == a.legacy_cursor,
    ensures
        placed_by_rule(b),
{
    reveal(placed_by_rule);
    if let Some(i) = b.legacy_index {
        assert(stood_for(a, i as int));
    }
}

/// Taking the legacy cursor off, or failing to, keeps to the rules.
pub proof fn dropped_legacy_cursors_keep_to_the_rules(
    view: FrameView,
    core: CoreView,
    succeeded: bool,
    after: FrameView,
    after_core: CoreView,
)
    requires
        placed_by_rule(view),
        view.visible.len() <= usize::MAX,
        crate::frame_build::is_disabled(view, core, succeeded, after, after_core),
    ensures
        placed_by_rule(after),
        legacy_by_rule(after, !succeeded),
{
    reveal(placed_by_rule);
    if let Some(i) = after.legacy_index {
        lemma_takes_part(view, i as int);
    }
}

/// Whether what one frame has on planes, the other has there too.
spec fn less_placed(a: FrameView, b: FrameView) -> bool {
    &&& b.visible == a.visible
    &&& b.output == a.output
    &&& b.clear_color == a.clear_color
    &&& b.flags == a.flags
    &&& b.effect_regions == a.effect_regions
    &&& b.legacy_index == a.legacy_index
    &&& b.legacy_cursor == a.legacy_cursor
    &&& forall|k: int|
        0 <= k < b.overlay_elements.len() ==> a.overlay_elements.contains(
            #[trigger] b.overlay_elements[k],
        )
    &&& b.cursor_element == a.cursor_element || b.cursor_element is None
    &&& b.primary_scanout == a.primary_scanout || b.primary_scanout is None
}

proof fn lemma_removed(entries: Seq<(u32, usize)>, handle: u32)
    ensures
        forall|k: int|
            0 <= k < key_removed(entries, handle).len() ==> entries.contains(
                #[trigger] key_removed(entries, handle)[k],
            ),
{
    key_index_is_first(entries, handle);
    let after = key_removed(entries, handle);
    assert forall|k: int| 0 <= k < after.len() implies entries.contains(#[trigger] after[k]) by {
        if has_key(entries, handle) && k >= key_index(entries, handle) {
            assert(after[k] == entries[k + 1]);
        } else {
            assert(after[k] == entries[k]);
        }
    }
}

proof fn lemma_retreat_takes_away(view: FrameView, core: CoreView, upto: nat)
    ensures
        less_placed(view, retreated(view, core, upto).view),
    decreases upto,
{
    if upto == 0 {
        assert forall|k: int| 0 <= k < view.overlay_elements.len() implies view.overlay_elements.contains(
            #[trigger] view.overlay_elements[k],
        ) by {}
    } else {
        lemma_retreat_takes_away(view, core, (upto - 1) as nat);
        let r = retreated(view, core, (upto - 1) as nat);
        let (handle, state) = r.view.frame[upto - 1];
        lemma_removed(r.view.overlay_elements, handle);
        let next = retreated(view, core, upto).view;
        assert forall|k: int| 0 <= k < next.overlay_elements.len() implies view.overlay_elements.contains(
            #[trigger] next.overlay_elements[k],
        ) by {
            let entry = next.overlay_elements[k];
            assert(r.view.overlay_elements.contains(entry));
            let j = choose|j: int|
                0 <= j < r.view.overlay_elements.len() && r.view.overlay_elements[j] == entry;
            assert(view.overlay_elements.contains(r.view.overlay_elements[j]));
        }
    }
}

/// What is taken back after a frame was refused leaves the rest where it may be.
pub proof fn refused_frames_keep_to_the_rules(view: FrameView, core: CoreView)
    requires
        placed_by_rule(view),
    ensures
        placed_by_rule(fallen_back(view, core)),
        fallen_back(view, core).legacy_index == view.legacy_index,
        fallen_back(view, core).legacy_cursor == view.legacy_cursor,
{
    reveal(placed_by_rule);
    lemma_retreat_takes_away(view, core, view.frame.len());
    let after = fallen_back(view, core);
    assert(less_placed(view, after));
    assert forall|k: int| 0 <= k < after.overlay_elements.len() implies may_be_overlay(
        after.visible,
        after.flags,
        (#[trigger] after.overlay_elements[k]).1 as int,
    ) by {
        assert(view.overlay_elements.contains(after.overlay_elements[k]));
    }
    if let Some(i) = after.legacy_index {
        assert(stood_for(view, i as int));
    }
}

/// The result tells of no element on a plane that may not be there.
pub proof fn results_keep_to_the_rules(
    view: FrameView,
    result: RenderFrameResult,
    was_rendered: bool,
    refused: bool,
)
    requires
        placed_by_rule(view),
        legacy_by_rule(view, refused),
        !was_rendered ==> view.primary_scanout.is_some(),
        result.primary_element is Element ==> !was_rendered && result.primary_element
            == PrimaryPlaneElement::Element(view.primary_scanout->0),
        result.overlay_elements@ == Seq::new(
            view.overlay_elements.len(),
            |i: int| view.overlay_elements[i].1,
        ),
        result.cursor_element == view.cursor_element,
        result.legacy_cursor == view.legacy_cursor,
    ensures
        result_by_rule(view.visible, view.output, view.clear_color, view.flags, result, refused),
{
    reveal(placed_by_rule);
    assert forall|k: int| 0 <= k < result.overlay_elements@.len() implies may_be_overlay(
        view.visible,
        view.flags,
        (#[trigger] result.overlay_elements@[k]) as int,
    ) by {
        assert(may_be_overlay(view.visible, view.flags, view.overlay_elements[k].1 as int));
    }
    if let Some(presentation) = view.legacy_cursor {
        if let Some(i) = view.legacy_index {
            assert(legacy_stands(view.visible, presentation, i as int));
        }
    }
}

} // verus!
