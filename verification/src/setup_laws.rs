//! What holds of what is found out about a device.

use vstd::prelude::*;
use crate::buffer::{CachedDrmFramebuffer, Format, ScanoutBuffer, Slot};
use crate::core_state::{traits_of, FormatTable, FormatTraits};
use crate::error::{DrmError, FrameError};
use crate::formats::{
    distinct, distinct_keeps_the_items, held_by, modifiers_of, of_code, pair_of, plane_candidates,
    renderer_candidates, supported_modifiers_spec,
};
use crate::frame_state::{idle_entries, index_is_the_first_entry};
use crate::geometry::{Point, Rectangle, Size, Transform};
use crate::init::{needs_opaque, usable_modifiers};
use crate::plane::{PlaneInfo, PlaneState};
use crate::record::Exchange;
use crate::setup::{
    after_dot, all_digits, digits_value, first_dot, front_to_back, has_working_fences,
    insert_by_height, is_digit, is_space, letters_at, names_nvidia, number_of, nvidia_letters,
    planes_are_ordered, same_letter, trimmed, version_of,
};
use crate::setup_talk::{
    all_failed, candidate_talk, choice_talk, failed_with, fencing_talk, format_talk, found_at,
    search_talk, setup_talk, swapchain_talk, trial_frame, tried_talk, Choice, Made, Trial,
};

verus! {

// ---------------------------------------------------------------------------------------------
// Drivers
// ---------------------------------------------------------------------------------------------

/// Whether a text spells the name from a position on, in upper or lower case.
pub open spec fn spells_nvidia(text: Seq<char>, at: int) -> bool {
    &&& 0 <= at && at + 6 <= text.len()
    &&& text[at] == 'n' || text[at] == 'N'
    &&& text[at + 1] == 'v' || text[at + 1] == 'V'
    &&& text[at + 2] == 'i' || text[at + 2] == 'I'
    &&& text[at + 3] == 'd' || text[at + 3] == 'D'
    &&& text[at + 4] == 'i' || text[at + 4] == 'I'
    &&& text[at + 5] == 'a' || text[at + 5] == 'A'
}

proof fn lemma_letter(c: char, lower: char, upper: char)
    requires
        same_letter(c, lower),
        upper as u32 + 32 == lower as u32,
    ensures
        c == lower || c == upper,
{
}

/// The name is found wherever it stands in a text, and nowhere else.
pub proof fn names_are_found_where_they_are_spelled(text: Seq<char>)
    ensures
        names_nvidia(text) <==> exists|at: int| #[trigger] spells_nvidia(text, at),
{
    if names_nvidia(text) {
        let at = choose|at: int| 0 <= at && #[trigger] letters_at(text, at);
        assert(text[at + 0] == text[at]);
        assert forall|j: int| 0 <= j < 6 implies same_letter(
            #[trigger] text[at + j],
            nvidia_letters()[j],
        ) by {}
        lemma_letter(text[at + 0], 'n', 'N');
        lemma_letter(text[at + 1], 'v', 'V');
        lemma_letter(text[at + 2], 'i', 'I');
        lemma_letter(text[at + 3], 'd', 'D');
        lemma_letter(text[at + 4], 'i', 'I');
        lemma_letter(text[at + 5], 'a', 'A');
        assert(spells_nvidia(text, at));
    }
    if exists|at: int| #[trigger] spells_nvidia(text, at) {
        let at = choose|at: int| #[trigger] spells_nvidia(text, at);
        assert forall|j: int| 0 <= j < 6 implies same_letter(
            #[trigger] text[at + j],
            nvidia_letters()[j],
        ) by {
            assert(j == 0 || j == 1 || j == 2 || j == 3 || j == 4 || j == 5);
        }
        assert(letters_at(text, at));
    }
}

/// The digit for a number below ten.
pub open spec fn digit(n: int) -> char {
    if n == 0 {
        '0'
    } else if n == 1 {
        '1'
    } else if n == 2 {
        '2'
    } else if n == 3 {
        '3'
    } else if n == 4 {
        '4'
    } else if n == 5 {
        '5'
    } else if n == 6 {
        '6'
    } else if n == 7 {
        '7'
    } else if n == 8 {
        '8'
    } else {
        '9'
    }
}

/// A number as it is written.
pub open spec fn written(n: int) -> Seq<char>
    decreases n,
{
    if n < 10 {
        seq![digit(n)]
    } else {
        written(n / 10).push(digit(n % 10))
    }
}

/// A version as it is written.
pub open spec fn written_version(major: u32, minor: u32, patch: u32) -> Seq<char> {
    written(major as int) + seq!['.'] + written(minor as int) + seq!['.'] + written(patch as int)
}

/// Whether a text is nothing but blanks, tabs and line ends.
pub open spec fn is_blank(text: Seq<char>) -> bool {
    forall|i: int|
        0 <= i < text.len() ==> #[trigger] text[i] == ' ' || text[i] == '\t' || text[i] == '\n'
            || text[i] == '\r'
}

proof fn lemma_written(n: int)
    requires
        0 <= n,
    ensures
        written(n).len() > 0,
        all_digits(written(n)),
        digits_value(written(n)) == n,
        forall|i: int| 0 <= i < written(n).len() ==> #[trigger] written(n)[i] != '.' && written(n)[i]
            != '+' && !is_space(written(n)[i]),
    decreases n,
{
    reveal_with_fuel(digits_value, 2);
    if n >= 10 {
        lemma_written(n / 10);
        assert(written(n).drop_last() =~= written(n / 10));
    } else {
        assert(written(n).drop_last() =~= Seq::empty());
    }
}

proof fn lemma_dot(head: Seq<char>, rest: Seq<char>)
    requires
        forall|i: int| 0 <= i < head.len() ==> #[trigger] head[i] != '.',
    ensures
        first_dot(head + seq!['.'] + rest) == head.len(),
        first_dot(head) == head.len(),
    decreases head.len(),
{
    if head.len() > 0 {
        lemma_dot(head.skip(1), rest);
        assert((head + seq!['.'] + rest).skip(1) =~= head.skip(1) + seq!['.'] + rest);
    }
}

/// A number that does not fit is none.
pub proof fn numbers_have_to_fit(n: int)
    requires
        0 <= n,
    ensures
        number_of(written(n)) == (if n <= u32::MAX {
            Some(n as u32)
        } else {
            None
        }),
{
    lemma_written(n);
    assert(written(n)[0] != '+');
}

/// A number is made of digits, but for a plus sign in front.
pub proof fn numbers_are_made_of_digits(text: Seq<char>, i: int)
    requires
        0 <= i < text.len(),
        text[i] != '+' || i > 0,
        forall|n: int| 0 <= n < 10 ==> text[i] != #[trigger] digit(n),
    ensures
        number_of(text) is None,
        number_of(Seq::empty()) is None,
{
    if text[0] == '+' {
        assert(text.skip(1)[i - 1] == text[i]);
    }
    lemma_digit(text[i]);
}

proof fn lemma_digit(c: char)
    requires
        forall|n: int| 0 <= n < 10 ==> c != #[trigger] digit(n),
    ensures
        !is_digit(c),
{
    let n = c as u32 - '0' as u32;
    assert(c != digit(n) || !(0 <= n < 10));
}

proof fn lemma_number(n: u32)
    ensures
        number_of(written(n as int)) == Some(n),
{
    lemma_written(n as int);
    assert(written(n as int)[0] != '+');
}

proof fn lemma_parts(head: Seq<char>, rest: Seq<char>)
    requires
        forall|i: int| 0 <= i < head.len() ==> #[trigger] head[i] != '.',
    ensures
        ({
            let all = head + seq!['.'] + rest;
            &&& after_dot(all) == Some(rest)
            &&& all.take(first_dot(all)) == head
        }),
{
    let all = head + seq!['.'] + rest;
    lemma_dot(head, rest);
    assert(all.skip(head.len() as int + 1) =~= rest);
    assert(all.take(head.len() as int) =~= head);
}

proof fn lemma_last_part(head: Seq<char>, rest: Seq<char>)
    requires
        forall|i: int| 0 <= i < head.len() ==> #[trigger] head[i] != '.',
        rest.len() == 0 || rest[0] == '.',
    ensures
        (head + rest).take(first_dot(head + rest)) == head,
{
    let all = head + rest;
    if rest.len() == 0 {
        assert(all =~= head);
        lemma_dot(head, rest);
        assert(all.take(head.len() as int) =~= head);
    } else {
        assert(all =~= head + seq!['.'] + rest.skip(1));
        lemma_parts(head, rest.skip(1));
    }
}

proof fn lemma_version(major: u32, minor: u32, patch: u32, rest: Seq<char>)
    requires
        rest.len() == 0 || rest[0] == '.',
        rest.len() > 0 ==> !is_space(rest.last()),
    ensures
        version_of(written_version(major, minor, patch) + rest) == Some((major, minor, patch)),
{
    let first = written_version(major, minor, patch) + rest;
    assert(trimmed(first) == first) by {
        let a = written(major as int);
        let c = written(patch as int);
        lemma_written(major as int);
        lemma_written(patch as int);
        assert(first[0] == a[0]);
        if rest.len() == 0 {
            assert(first.last() == c[c.len() - 1]);
        } else {
            assert(first.last() == rest.last());
        }
    }
    let second = written(minor as int) + seq!['.'] + (written(patch as int) + rest);
    let third = written(patch as int) + rest;
    assert(first =~= written(major as int) + seq!['.'] + second);
    assert(after_dot(first) == Some(second) && number_of(first.take(first_dot(first))) == Some(
        major,
    )) by {
        lemma_written(major as int);
        lemma_number(major);
        lemma_parts(written(major as int), second);
    }
    assert(after_dot(second) == Some(third) && number_of(second.take(first_dot(second))) == Some(
        minor,
    )) by {
        lemma_written(minor as int);
        lemma_number(minor);
        lemma_parts(written(minor as int), third);
    }
    assert(number_of(third.take(first_dot(third))) == Some(patch)) by {
        lemma_written(patch as int);
        lemma_number(patch);
        lemma_last_part(written(patch as int), rest);
    }
}

proof fn lemma_trimmed(before: Seq<char>, text: Seq<char>, after: Seq<char>)
    requires
        is_blank(before),
        is_blank(after),
        text.len() > 0,
        !is_space(text[0]),
        !is_space(text.last()),
    ensures
        trimmed(before + text + after) == text,
    decreases before.len() + after.len(),
{
    let all = before + text + after;
    if before.len() > 0 {
        assert(all[0] == before[0]);
        assert(is_space(all[0]));
        assert(all.skip(1) =~= before.skip(1) + text + after);
        lemma_trimmed(before.skip(1), text, after);
    } else if after.len() > 0 {
        assert(all[0] == text[0]);
        assert(all.last() == after[after.len() - 1]);
        assert(is_space(all.last()));
        assert(all.drop_last() =~= before + text + after.drop_last());
        lemma_trimmed(before, text, after.drop_last());
    } else {
        assert(all =~= text);
    }
}

/// A version is read as it is written, whatever blanks stand around it.
pub proof fn versions_are_read_as_written(
    before: Seq<char>,
    major: u32,
    minor: u32,
    patch: u32,
    after: Seq<char>,
)
    requires
        is_blank(before),
        is_blank(after),
    ensures
        version_of(before + written_version(major, minor, patch) + after) == Some(
            (major, minor, patch),
        ),
{
    let text = written_version(major, minor, patch);
    lemma_written(major as int);
    lemma_written(patch as int);
    assert(text[0] == written(major as int)[0]);
    assert(text.last() == written(patch as int)[written(patch as int).len() - 1]);
    lemma_trimmed(before, text, after);
    lemma_trimmed(Seq::empty(), text, Seq::empty());
    assert(Seq::empty() + text + Seq::empty() =~= text);
    assert(text + Seq::empty() =~= text);
    lemma_version(major, minor, patch, Seq::empty());
}

/// Further numbers after the third one do not matter.
pub proof fn versions_end_after_three_numbers(major: u32, minor: u32, patch: u32, rest: Seq<char>)
    requires
        rest.len() > 0,
        rest[0] == '.',
        !is_space(rest.last()),
    ensures
        version_of(written_version(major, minor, patch) + rest) == Some((major, minor, patch)),
{
    lemma_version(major, minor, patch, rest);
}

/// What has fewer than two dots is no version.
pub proof fn versions_have_three_numbers(major: u32, minor: u32)
    ensures
        version_of(written(major as int)) is None,
        version_of(written(major as int) + seq!['.'] + written(minor as int)) is None,
{
    let a = written(major as int);
    let b = written(minor as int);
    lemma_written(major as int);
    lemma_written(minor as int);
    assert(trimmed(a) == a);
    lemma_dot(a, b);
    lemma_dot(b, a);
    let both = a + seq!['.'] + b;
    assert(both[0] == a[0]);
    assert(both.last() == b[b.len() - 1]);
    assert(trimmed(both) == both);
    assert(both.skip(a.len() as int + 1) =~= b);
}

/// The place of a version among all versions.
pub open spec fn version_rank(major: u32, minor: u32, patch: u32) -> int {
    (major * 0x1_0000_0000 + minor) * 0x1_0000_0000 + patch
}

/// Fences work from one version on.
pub proof fn fences_work_from_a_version_on(major: u32, minor: u32, patch: u32)
    ensures
        has_working_fences(Some((major, minor, patch))) <==> version_rank(major, minor, patch)
            >= version_rank(560, 35, 3),
        !has_working_fences(None),
{
}

/// Fences are used if and only if everything that has a say is for it: the surface is no legacy one,
/// the driver has synchronization objects, the primary plane takes fences, and a driver of Nvidia is
/// recent.
pub proof fn fences_are_used_where_they_work<A, B, F, R>(
    primary: u32,
    is_legacy: bool,
    talk: Seq<Exchange<A, B, F, R>>,
    result: Result<bool, DrmError>,
)
    requires
        fencing_talk(primary, is_legacy, talk, result),
        result is Ok,
    ensures
        talk.len() >= 1 && talk[0] is Driver && talk[0]->Driver_answer is Ok,
        is_legacy ==> talk.len() == 1 && !result->Ok_0,
        !is_legacy ==> talk.len() >= 2 && (talk[1] matches Exchange::SyncobjCapability { answer }
            && answer is Ok && (answer->Ok_0 == 0 ==> talk.len() == 2 && !result->Ok_0) && (
        answer->Ok_0 != 0 ==> talk.len() >= 3 && (talk[2] matches Exchange::TakesFences {
            plane,
            answer: takes,
        } && plane == primary && takes is Ok && (!takes->Ok_0 ==> !result->Ok_0) && (takes->Ok_0 ==> {
            let nvidia = (exists|at: int| #[trigger]
                spells_nvidia(talk[0]->Driver_answer->Ok_0.0@, at)) || (exists|at: int| #[trigger]
                spells_nvidia(talk[0]->Driver_answer->Ok_0.1@, at));
            &&& !nvidia ==> result->Ok_0
            &&& nvidia ==> talk.len() == 4 && (talk[3] matches Exchange::DriverVersion {
                answer: text,
            } && (text is None ==> !result->Ok_0) && (forall|major: u32, minor: u32, patch: u32|
                text is Some && text->0@ == #[trigger] written_version(major, minor, patch) ==> (
                result->Ok_0 <==> version_rank(major, minor, patch) >= version_rank(560, 35, 3))))
        })))),
{
    reveal(fencing_talk);
    names_are_found_where_they_are_spelled(talk[0]->Driver_answer->Ok_0.0@);
    names_are_found_where_they_are_spelled(talk[0]->Driver_answer->Ok_0.1@);
    if !is_legacy {
        assert(talk.skip(1)[0] == talk[1]);
        if talk[1]->SyncobjCapability_answer->Ok_0 != 0 {
            let rest = talk.skip(1).skip(1);
            assert(rest[0] == talk[2]);
            if rest.len() == 2 {
                assert(rest[1] == talk[3]);
                assert forall|major: u32, minor: u32, patch: u32|
                    talk[3]->DriverVersion_answer is Some && talk[3]->DriverVersion_answer->0@
                        == #[trigger] written_version(major, minor, patch) implies (result->Ok_0
                    <==> version_rank(major, minor, patch) >= version_rank(560, 35, 3)) by {
                    let text = written_version(major, minor, patch);
                    versions_are_read_as_written(Seq::empty(), major, minor, patch, Seq::empty());
                    assert(Seq::empty() + text + Seq::empty() =~= text);
                    fences_work_from_a_version_on(major, minor, patch);
                }
            }
        }
    }
}

// ---------------------------------------------------------------------------------------------
// Planes
// ---------------------------------------------------------------------------------------------

/// The planes at one height, in their order.
pub open spec fn at_height(planes: Seq<PlaneInfo>, z: int) -> Seq<PlaneInfo>
    decreases planes.len(),
{
    if planes.len() == 0 {
        planes
    } else if planes.last().z_spec() == z {
        at_height(planes.drop_last(), z).push(planes.last())
    } else {
        at_height(planes.drop_last(), z)
    }
}

/// Planes at the same height stay in the order they had.
pub proof fn sorting_keeps_equals_in_order(planes: Seq<PlaneInfo>, z: int)
    ensures
        at_height(front_to_back(planes), z) == at_height(planes, z),
    decreases planes.len(),
{
    if planes.len() > 0 {
        let front = planes.drop_last();
        sorting_keeps_equals_in_order(front, z);
        planes_are_ordered(front);
        lemma_insert_keeps_order(front_to_back(front), planes.last(), z);
    }
}

proof fn lemma_insert_keeps_order(sorted: Seq<PlaneInfo>, plane: PlaneInfo, z: int)
    requires
        forall|i: int, j: int|
            0 <= i < j < sorted.len() ==> (#[trigger] sorted[i]).z_spec() >= (
            #[trigger] sorted[j]).z_spec(),
    ensures
        at_height(insert_by_height(sorted, plane), z) == (if plane.z_spec() == z {
            at_height(sorted, z).push(plane)
        } else {
            at_height(sorted, z)
        }),
    decreases sorted.len(),
{
    let after = insert_by_height(sorted, plane);
    if sorted.len() == 0 || sorted.last().z_spec() >= plane.z_spec() {
        assert(after.drop_last() =~= sorted);
    } else {
        let front = sorted.drop_last();
        lemma_insert_keeps_order(front, plane, z);
        assert(after.drop_last() =~= insert_by_height(front, plane));
        assert(after.last() == sorted.last());
    }
}

// ---------------------------------------------------------------------------------------------
// Formats
// ---------------------------------------------------------------------------------------------

/// Whether formats hold one with a code and a layout.
pub open spec fn offers(formats: Seq<Format>, code: u32, layout: u64) -> bool {
    exists|i: int|
        0 <= i < formats.len() && (#[trigger] formats[i]).code == code && formats[i].modifier == layout
}

/// Whether a plane can show a format with a layout, with or without the alpha channel.
pub open spec fn can_show(formats: Seq<Format>, code: u32, opaque: u32, layout: u64) -> bool {
    offers(formats, code, layout) || offers(formats, opaque, layout)
}

proof fn lemma_filter<T>(items: Seq<T>, keep: spec_fn(T) -> bool, item: T)
    ensures
        items.filter(keep).contains(item) <==> items.contains(item) && keep(item),
    decreases items.len(),
{
    reveal(Seq::filter);
    if items.len() > 0 {
        let front = items.drop_last();
        let kept = items.filter(keep);
        let before = front.filter(keep);
        lemma_filter(front, keep, item);
        if kept.contains(item) {
            let i = choose|i: int| 0 <= i < kept.len() && kept[i] == item;
            if i < before.len() {
                assert(before[i] == item);
                assert(front.contains(item));
                let k = choose|k: int| 0 <= k < front.len() && front[k] == item;
                assert(items[k] == item);
            } else {
                assert(items[items.len() - 1] == item);
            }
        }
        if items.contains(item) && keep(item) {
            let i = choose|i: int| 0 <= i < items.len() && items[i] == item;
            if i < front.len() {
                assert(front[i] == item);
                assert(before.contains(item));
                let k = choose|k: int| 0 <= k < before.len() && before[k] == item;
                assert(kept[k] == item);
            } else {
                assert(kept[kept.len() - 1] == item);
            }
        }
    }
}

proof fn lemma_candidates(formats: Seq<Format>, code: u32, opaque: u32, c: u32, layout: u64)
    ensures
        plane_candidates(formats, code, opaque).contains((c, layout)) <==> (c == code || c == opaque)
            && offers(formats, c, layout),
{
    let pairs = formats.map_values(|format: Format| pair_of(format));
    distinct_keeps_the_items(pairs);
    lemma_filter(distinct(pairs), of_code(code, opaque), (c, layout));
    if pairs.contains((c, layout)) {
        let i = choose|i: int| 0 <= i < pairs.len() && pairs[i] == (c, layout);
        assert(formats[i].code == c && formats[i].modifier == layout);
    }
    if offers(formats, c, layout) {
        let i = choose|i: int|
            0 <= i < formats.len() && (#[trigger] formats[i]).code == c && formats[i].modifier
                == layout;
        assert(pairs[i] == (c, layout));
    }
}

proof fn lemma_renderer(formats: Seq<Format>, code: u32, c: u32, layout: u64)
    ensures
        renderer_candidates(formats, code).contains((c, layout)) <==> c == code && offers(
            formats,
            code,
            layout,
        ),
    decreases formats.len(),
{
    if formats.len() > 0 {
        let front = formats.drop_last();
        lemma_renderer(front, code, c, layout);
        let before = renderer_candidates(front, code);
        let after = renderer_candidates(formats, code);
        if before.contains((c, layout)) {
            let i = choose|i: int| 0 <= i < before.len() && before[i] == (c, layout);
            assert(after[i] == (c, layout));
            let k = choose|k: int|
                0 <= k < front.len() && (#[trigger] front[k]).code == code && front[k].modifier
                    == layout;
            assert(formats[k].code == code);
        }
        if after.contains((c, layout)) && !before.contains((c, layout)) {
            let i = choose|i: int| 0 <= i < after.len() && after[i] == (c, layout);
            if i < before.len() {
                assert(before[i] == (c, layout));
            }
            assert(formats[formats.len() - 1].code == code);
        }
        if c == code && offers(formats, code, layout) {
            let k = choose|k: int|
                0 <= k < formats.len() && (#[trigger] formats[k]).code == code && formats[k].modifier
                    == layout;
            if k < front.len() {
                assert(front[k] == formats[k]);
            } else {
                assert(after[after.len() - 1] == (c, layout));
            }
        }
    }
}

proof fn lemma_modifiers(pairs: Seq<(u32, u64)>, layout: u64)
    ensures
        modifiers_of(pairs).contains(layout) <==> exists|i: int|
            0 <= i < pairs.len() && (#[trigger] pairs[i]).1 == layout,
{
    let layouts = pairs.map_values(|format: (u32, u64)| format.1);
    distinct_keeps_the_items(layouts);
    if layouts.contains(layout) {
        let i = choose|i: int| 0 <= i < layouts.len() && layouts[i] == layout;
        assert(pairs[i].1 == layout);
    }
    if exists|i: int| 0 <= i < pairs.len() && (#[trigger] pairs[i]).1 == layout {
        let i = choose|i: int| 0 <= i < pairs.len() && (#[trigger] pairs[i]).1 == layout;
        assert(layouts[i] == layout);
    }
}

proof fn lemma_plane_layouts(formats: Seq<Format>, code: u32, opaque: u32, layout: u64)
    ensures
        modifiers_of(plane_candidates(formats, code, opaque)).contains(layout) <==> can_show(
            formats,
            code,
            opaque,
            layout,
        ),
        crate::formats::any_with_modifier(plane_candidates(formats, code, opaque), layout)
            <==> can_show(formats, code, opaque, layout),
{
    let pairs = plane_candidates(formats, code, opaque);
    lemma_modifiers(pairs, layout);
    lemma_candidates(formats, code, opaque, code, layout);
    lemma_candidates(formats, code, opaque, opaque, layout);
    if crate::formats::any_with_modifier(pairs, layout) {
        let i = choose|i: int| 0 <= i < pairs.len() && (#[trigger] pairs[i]).1 == layout;
        assert(pairs.contains(pairs[i]));
        lemma_candidates(formats, code, opaque, pairs[i].0, layout);
    }
    if offers(formats, code, layout) {
        let i = choose|i: int| 0 <= i < pairs.len() && pairs[i] == (code, layout);
        assert(pairs[i].1 == layout);
    }
    if offers(formats, opaque, layout) {
        let i = choose|i: int| 0 <= i < pairs.len() && pairs[i] == (opaque, layout);
        assert(pairs[i].1 == layout);
    }
}

proof fn lemma_renderer_layouts(formats: Seq<Format>, code: u32, layout: u64)
    ensures
        modifiers_of(renderer_candidates(formats, code)).contains(layout) <==> offers(
            formats,
            code,
            layout,
        ),
        crate::formats::any_with_modifier(renderer_candidates(formats, code), layout) <==> offers(
            formats,
            code,
            layout,
        ),
{
    let pairs = renderer_candidates(formats, code);
    lemma_modifiers(pairs, layout);
    lemma_renderer(formats, code, code, layout);
    if crate::formats::any_with_modifier(pairs, layout) {
        let i = choose|i: int| 0 <= i < pairs.len() && (#[trigger] pairs[i]).1 == layout;
        assert(pairs.contains(pairs[i]));
        lemma_renderer(formats, code, pairs[i].0, layout);
    }
    if offers(formats, code, layout) {
        let i = choose|i: int| 0 <= i < pairs.len() && pairs[i] == (code, layout);
        assert(pairs[i].1 == layout);
    }
}

/// A layout is taken if and only if the plane can show the format with it and the renderer can render
/// to it; but where nothing is shared, one side knows the implicit layout alone and the other the
/// linear one, the implicit one is taken.
pub proof fn shared_layouts_are_taken(
    plane: Seq<Format>,
    renderer: Seq<Format>,
    code: u32,
    opaque: u32,
    layout: u64,
)
    ensures
        ({
            let taken = supported_modifiers_spec(
                plane_candidates(plane, code, opaque),
                renderer_candidates(renderer, code),
            );
            let implicit = 0x00ff_ffff_ffff_ffffu64;
            &&& can_show(plane, code, opaque, layout) && offers(renderer, code, layout)
                ==> taken.contains(layout)
            &&& taken.contains(layout) ==> (can_show(plane, code, opaque, layout) && offers(
                renderer,
                code,
                layout,
            )) || (layout == implicit && can_show(plane, code, opaque, implicit) && !offers(
                renderer,
                code,
                implicit,
            ) && offers(renderer, code, 0)) || (layout == implicit && offers(renderer, code, implicit)
                && !can_show(plane, code, opaque, implicit) && can_show(plane, code, opaque, 0))
        }),
{
    let a = plane_candidates(plane, code, opaque);
    let b = renderer_candidates(renderer, code);
    let implicit = 0x00ff_ffff_ffff_ffffu64;
    lemma_plane_layouts(plane, code, opaque, layout);
    lemma_renderer_layouts(renderer, code, layout);
    lemma_plane_layouts(plane, code, opaque, implicit);
    lemma_renderer_layouts(renderer, code, implicit);
    lemma_plane_layouts(plane, code, opaque, 0);
    lemma_renderer_layouts(renderer, code, 0);
    lemma_filter(modifiers_of(a), held_by(modifiers_of(b)), layout);
    if a.len() == 1 && a[0].1 == implicit && can_show(plane, code, opaque, layout) {
        let i = choose|i: int| 0 <= i < a.len() && (#[trigger] a[i]).1 == layout;
        assert(layout == implicit);
    }
    if b.len() == 1 && b[0].1 == implicit && offers(renderer, code, layout) {
        let i = choose|i: int| 0 <= i < b.len() && (#[trigger] b[i]).1 == layout;
        assert(layout == implicit);
    }
    if crate::formats::implicit_against_linear(a, b) {
        assert(a[0].1 == implicit);
        assert(crate::formats::any_with_modifier(a, implicit));
        assert(seq![implicit][0] == implicit);
    }
    if crate::formats::implicit_against_linear(b, a) {
        assert(b[0].1 == implicit);
        assert(crate::formats::any_with_modifier(b, implicit));
        assert(seq![implicit][0] == implicit);
    }
}

/// Of the layouts that are allowed, exactly those are used with which the plane can show the format; it
/// is shown without its alpha channel only where the plane does not take it as it is.
pub proof fn allowed_layouts_are_used(
    plane: Seq<Format>,
    table: FormatTable,
    code: u32,
    allowed: Seq<u64>,
    layout: u64,
)
    ensures
        usable_modifiers(plane, table, code, allowed).contains(layout) <==> allowed.contains(layout)
            && can_show(plane, code, table.opaque_or_same(code), layout),
        offers(plane, code, layout) ==> !needs_opaque(plane, table, code),
        !needs_opaque(plane, table, code) ==> exists|other: u64| #[trigger]
            offers(plane, code, other),
{
    let opaque = table.opaque_or_same(code);
    let a = plane_candidates(plane, code, opaque);
    lemma_plane_layouts(plane, code, opaque, layout);
    distinct_keeps_the_items(allowed);
    lemma_filter(modifiers_of(a), held_by(distinct(allowed)), layout);
    lemma_candidates(plane, code, opaque, code, layout);
    if offers(plane, code, layout) {
        let i = choose|i: int| 0 <= i < a.len() && a[i] == (code, layout);
        assert(a[i].0 == code);
    }
    if !needs_opaque(plane, table, code) {
        let i = choose|i: int| 0 <= i < a.len() && (#[trigger] a[i]).0 == code;
        assert(a.contains(a[i]));
        lemma_candidates(plane, code, opaque, code, a[i].1);
    }
}

/// A format is what the first entry about it says; a format without an entry is taken as it is.
pub proof fn formats_are_what_is_listed(table: FormatTable, code: u32, i: int)
    requires
        0 <= i < table.formats@.len(),
        table.formats@[i].code == code,
        forall|j: int| 0 <= j < i ==> (#[trigger] table.formats@[j]).code != code,
    ensures
        table.has_alpha_spec(code) == table.formats@[i].has_alpha,
        table.formats@[i].opaque matches Some(opaque) ==> table.opaque_or_same(code) == opaque,
        table.formats@[i].opaque is None ==> table.opaque_or_same(code) == code,
{
    lemma_traits(table.formats@, code, i);
}

proof fn lemma_traits(formats: Seq<FormatTraits>, code: u32, i: int)
    requires
        0 <= i < formats.len(),
        formats[i].code == code,
        forall|j: int| 0 <= j < i ==> (#[trigger] formats[j]).code != code,
    ensures
        traits_of(formats, code) == Some(formats[i]),
    decreases formats.len(),
{
    if i > 0 {
        assert(formats[0].code != code);
        let rest = formats.skip(1);
        assert forall|j: int| 0 <= j < i - 1 implies (#[trigger] rest[j]).code != code by {
            assert(rest[j] == formats[j + 1]);
        }
        lemma_traits(rest, code, i - 1);
    }
}

// ---------------------------------------------------------------------------------------------
// Trials
// ---------------------------------------------------------------------------------------------

/// What is tried out is the buffer on the whole screen, and nothing else.
pub proof fn trials_show_the_buffer_alone(
    trial: Trial,
    slot: Slot,
    fb: CachedDrmFramebuffer,
    size: Size,
    claim: u64,
    i: int,
)
    requires
        0 <= i < trial_frame(trial, slot, fb, size, claim).len(),
    ensures
        ({
            let frame = trial_frame(trial, slot, fb, size, claim);
            &&& frame[0].0 == trial.primary.handle
            &&& frame[0].1.needs_test && !frame[0].1.skip
            &&& frame[0].1.config matches Some(config) && config.buffer.buffer
                == ScanoutBuffer::Swapchain(slot) && config.buffer.fb == fb && config.plane_claim
                == claim && config.properties.dst == (Rectangle {
                loc: Point { x: 0, y: 0 },
                size: trial.mode_size,
            }) && config.properties.transform == Transform::Normal
            &&& i > 0 ==> frame[i].1.config is None
        }),
{
    let handle = trial.primary.handle;
    let idle = seq![(handle, PlaneState::idle())] + (if trial.include_cursor_planes {
        idle_entries(trial.cursor)
    } else {
        Seq::empty()
    }) + idle_entries(trial.overlay);
    index_is_the_first_entry(idle, handle);
    assert(idle[0].0 == handle);
}

/// A format works only if the device accepted, with a modeset, a frame that shows a buffer of a
/// swapchain of the format, which has the size of the mode and layouts that are both allowed and taken by
/// the plane.
pub proof fn working_formats_were_accepted<A, B, F, R>(
    trial: Trial,
    code: u32,
    modifiers: Seq<u64>,
    talk: Seq<Exchange<A, B, F, R>>,
    opaque: bool,
    layout: u64,
)
    requires
        format_talk(trial, code, modifiers, talk, Ok::<bool, FrameError<A, B, F>>(opaque)),
    ensures
        talk.len() == 7,
        talk[0] matches Exchange::OpenSwapchain { size, code: opened, modifiers: layouts } && size
            == trial.mode_size && opened == code && layouts.len() > 0 && (layouts.contains(layout)
            <==> modifiers.contains(layout) && can_show(
            trial.primary.formats@,
            code,
            trial.table.opaque_or_same(code),
            layout,
        )),
        talk[6] matches Exchange::TestState { planes, allow_modeset, answer } && allow_modeset
            && answer is Ok,
        talk[3] matches Exchange::AddSlotFramebuffer { slot, use_opaque, answer } && use_opaque
            == opaque,
        offers(trial.primary.formats@, code, layout) ==> !opaque,
{
    reveal(format_talk);
    reveal(swapchain_talk);
    allowed_layouts_are_used(trial.primary.formats@, trial.table, code, modifiers, layout);
    let rest = talk.skip(1);
    assert(rest[0] == talk[1] && rest[1] == talk[2]);
    let shown = rest.skip(2);
    assert(shown[0] == talk[3] && shown[1] == talk[4] && shown[2] == talk[5] && shown[3] == talk[6]);
}

/// A format that does not work leaves the swapchain as it was: the new one is given up, or was never
/// opened.
pub proof fn formats_that_fail_are_given_up<A, B, F, R>(
    trial: Trial,
    code: u32,
    modifiers: Seq<u64>,
    talk: Seq<Exchange<A, B, F, R>>,
    error: FrameError<A, B, F>,
)
    requires
        format_talk(trial, code, modifiers, talk, Err::<bool, FrameError<A, B, F>>(error)),
    ensures
        talk.len() > 0 ==> talk[0] is OpenSwapchain && talk.last() is RestoreSwapchain,
        talk.len() == 0 ==> error == FrameError::<A, B, F>::NoSupportedPlaneFormat,
        forall|layout: u64|
            modifiers.contains(layout) && #[trigger] can_show(
                trial.primary.formats@,
                code,
                trial.table.opaque_or_same(code),
                layout,
            ) ==> talk.len() > 0,
{
    reveal(format_talk);
    assert forall|layout: u64|
        modifiers.contains(layout) && #[trigger] can_show(
            trial.primary.formats@,
            code,
            trial.table.opaque_or_same(code),
            layout,
        ) implies talk.len() > 0 by {
        allowed_layouts_are_used(trial.primary.formats@, trial.table, code, modifiers, layout);
    }
}

/// Of several formats the first one that works is used: each one before it was tried and failed.
pub proof fn the_first_format_that_works_is_used<A, B, F, R>(
    trial: Trial,
    renderer_formats: Seq<Format>,
    codes: Seq<u32>,
    talk: Seq<Exchange<A, B, F, R>>,
    opaque: bool,
)
    requires
        search_talk(
            trial,
            renderer_formats,
            codes,
            talk,
            Ok::<bool, FrameError<A, B, F>>(opaque),
        ),
    ensures
        exists|n: int, k: int|
            0 <= n < codes.len() && 0 <= k <= talk.len() && #[trigger] candidate_talk(
                trial,
                renderer_formats,
                codes[n],
                talk.skip(k),
                Ok::<bool, FrameError<A, B, F>>(opaque),
            ) && forall|m: int|
                0 <= m < n ==> #[trigger] was_refused(trial, renderer_formats, codes[m], talk),
{
    let result = Ok::<bool, FrameError<A, B, F>>(opaque);
    let (n, k) = choose|n: int, k: int| #[trigger]
        found_at(trial, renderer_formats, codes, n, k, talk, result);
    assert(candidate_talk(trial, renderer_formats, codes[n], talk.skip(k), result));
    assert forall|m: int| 0 <= m < n implies #[trigger] was_refused(
        trial,
        renderer_formats,
        codes[m],
        talk,
    ) by {
        lemma_refused(trial, renderer_formats, codes, n as nat, talk.take(k), m);
        let (a, b, error) = choose|a: int, b: int, error: FrameError<A, B, F>|
            0 <= a <= b <= talk.take(k).len() && #[trigger] candidate_talk(
                trial,
                renderer_formats,
                codes[m],
                talk.take(k).subrange(a, b),
                failed_with(error),
            );
        assert(talk.take(k).subrange(a, b) =~= talk.subrange(a, b));
    }
}

/// Whether a format was tried and failed.
pub open spec fn was_refused<A, B, F, R>(
    trial: Trial,
    renderer_formats: Seq<Format>,
    code: u32,
    talk: Seq<Exchange<A, B, F, R>>,
) -> bool {
    exists|a: int, b: int, error: FrameError<A, B, F>|
        0 <= a <= b <= talk.len() && #[trigger] candidate_talk(
            trial,
            renderer_formats,
            code,
            talk.subrange(a, b),
            failed_with(error),
        )
}

proof fn lemma_refused<A, B, F, R>(
    trial: Trial,
    renderer_formats: Seq<Format>,
    codes: Seq<u32>,
    n: nat,
    talk: Seq<Exchange<A, B, F, R>>,
    m: int,
)
    requires
        all_failed(trial, renderer_formats, codes, n, talk),
        0 <= m < n,
    ensures
        was_refused(trial, renderer_formats, codes[m], talk),
    decreases n,
{
    let (k, error) = choose|k: int, error: FrameError<A, B, F>|
        #![trigger candidate_talk(trial, renderer_formats, codes[n - 1], talk.skip(k), failed_with(error))]
        0 <= k <= talk.len() && all_failed(
            trial,
            renderer_formats,
            codes,
            (n - 1) as nat,
            talk.take(k),
        ) && candidate_talk(
            trial,
            renderer_formats,
            codes[n - 1],
            talk.skip(k),
            failed_with(error),
        );
    if m == n - 1 {
        assert(talk.skip(k) =~= talk.subrange(k, talk.len() as int));
        assert(candidate_talk(
            trial,
            renderer_formats,
            codes[m],
            talk.subrange(k, talk.len() as int),
            failed_with(error),
        ));
    } else {
        lemma_refused(trial, renderer_formats, codes, (n - 1) as nat, talk.take(k), m);
        let (a, b, e) = choose|a: int, b: int, e: FrameError<A, B, F>|
            0 <= a <= b <= talk.take(k).len() && #[trigger] candidate_talk(
                trial,
                renderer_formats,
                codes[m],
                talk.take(k).subrange(a, b),
                failed_with(e),
            );
        assert(talk.take(k).subrange(a, b) =~= talk.subrange(a, b));
    }
}

/// A format is tried out with the layouts that plane and renderer share, if both know it.
pub proof fn formats_are_tried_with_shared_layouts<A, B, F, R>(
    trial: Trial,
    renderer_formats: Seq<Format>,
    code: u32,
    talk: Seq<Exchange<A, B, F, R>>,
    opaque: bool,
    layout: u64,
)
    requires
        candidate_talk(
            trial,
            renderer_formats,
            code,
            talk,
            Ok::<bool, FrameError<A, B, F>>(opaque),
        ),
        can_show(trial.primary.formats@, code, trial.table.opaque_or_same(code), layout),
        offers(renderer_formats, code, layout),
    ensures
        talk.len() == 7,
        talk[0] matches Exchange::OpenSwapchain { size, code: opened, modifiers } && opened == code
            && modifiers.contains(layout),
        talk[6] matches Exchange::TestState { planes, allow_modeset, answer } && answer is Ok,
{
    let opaque_code = trial.table.opaque_or_same(code);
    let plane = plane_candidates(trial.primary.formats@, code, opaque_code);
    let renderer = renderer_candidates(renderer_formats, code);
    shared_layouts_are_taken(trial.primary.formats@, renderer_formats, code, opaque_code, layout);
    working_formats_were_accepted(
        trial,
        code,
        supported_modifiers_spec(plane, renderer),
        talk,
        opaque,
        layout,
    );
}

/// A compositor that was set up has the fence, the id and the answer about fences that the device gave,
/// and the device had just accepted its swapchain.
pub proof fn compositors_are_set_up_once_a_format_works<A, B, F, R>(
    trial: Trial,
    choice: Choice,
    is_legacy: bool,
    talk: Seq<Exchange<A, B, F, R>>,
    made: Made,
)
    requires
        setup_talk(trial, choice, is_legacy, talk, Ok::<Made, FrameError<A, B, F>>(made)),
    ensures
        talk.len() >= 3,
        talk[0] == (Exchange::<A, B, F, R>::SignaledFence { answer: made.signaled_fence }),
        talk.last() == (Exchange::<A, B, F, R>::FreshId { answer: made.primary_plane_element_id }),
        talk[talk.len() - 2] matches Exchange::TestState { planes, allow_modeset, answer }
            && allow_modeset && answer is Ok,
        is_legacy ==> !made.supports_fencing,
{
    reveal(setup_talk);
    let (k, fencing) = choose|k: int, fencing: Result<bool, DrmError>|
        #![trigger fencing_talk(trial.primary.handle, is_legacy, talk.subrange(1, k), fencing)]
        1 <= k <= talk.len() && fencing_talk(
            trial.primary.handle,
            is_legacy,
            talk.subrange(1, k),
            fencing,
        ) && match fencing {
            Err(error) => k == talk.len() && Ok::<Made, FrameError<A, B, F>>(made) == Err::<
                Made,
                FrameError<A, B, F>,
            >(FrameError::DrmError(error)),
            Ok(supports_fencing) => tried_talk(
                trial,
                choice,
                talk[0]->SignaledFence_answer,
                supports_fencing,
                talk.skip(k),
                Ok::<Made, FrameError<A, B, F>>(made),
            ),
        };
    fences_are_used_where_they_work(
        trial.primary.handle,
        is_legacy,
        talk.subrange(1, k),
        fencing,
    );
    let tried = talk.skip(k);
    let tests = tried.drop_last();
    assert(tried.last() == talk.last());
    lemma_chosen(trial, choice, tests, made.primary_is_opaque);
    assert(tests.last() == talk[talk.len() - 2]);
}

proof fn lemma_chosen<A, B, F, R>(
    trial: Trial,
    choice: Choice,
    talk: Seq<Exchange<A, B, F, R>>,
    opaque: bool,
)
    requires
        choice_talk(trial, choice, talk, Ok::<bool, FrameError<A, B, F>>(opaque)),
    ensures
        talk.len() >= 7,
        talk.last() matches Exchange::TestState { planes, allow_modeset, answer } && allow_modeset
            && answer is Ok,
{
    let result = Ok::<bool, FrameError<A, B, F>>(opaque);
    match choice {
        Choice::Fixed { code, modifiers } => {
            working_formats_were_accepted(trial, code, modifiers, talk, opaque, 0);
        },
        Choice::First { codes, renderer_formats } => {
            let (n, k) = choose|n: int, k: int| #[trigger]
                found_at(trial, renderer_formats, codes, n, k, talk, result);
            let rest = talk.skip(k);
            let code = codes[n];
            working_formats_were_accepted(
                trial,
                code,
                supported_modifiers_spec(
                    plane_candidates(
                        trial.primary.formats@,
                        code,
                        trial.table.opaque_or_same(code),
                    ),
                    renderer_candidates(renderer_formats, code),
                ),
                rest,
                opaque,
                0,
            );
            assert(rest.last() == talk.last());
        },
    }
}

} // verus!
