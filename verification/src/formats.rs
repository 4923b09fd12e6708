//! Choosing the pixel format of the primary swapchain.

use indexmap::IndexSet;
use vstd::prelude::*;
use crate::buffer::Format;
use crate::core_state::FormatTable;
use crate::fourcc::{implicit_layout, invalid_modifier, linear_layout, linear_modifier};

verus! {

#[verifier::external_type_specification]
#[verifier::external_body]
#[verifier::reject_recursive_types(T)]
#[verifier::reject_recursive_types(S)]
pub struct ExIndexSet<T, S>(IndexSet<T, S>);

/// The formats in a set, in the order in which they were put there.
pub uninterp spec fn format_entries(set: IndexSet<(u32, u64), std::hash::RandomState>) -> Seq<
    (u32, u64),
>;

/// The modifiers in a set, in the order in which they were put there.
pub uninterp spec fn modifier_entries(set: IndexSet<u64, std::hash::RandomState>) -> Seq<u64>;

/// A list with one more item, unless it is there already.
pub open spec fn with_item<T>(items: Seq<T>, item: T) -> Seq<T> {
    if items.contains(item) {
        items
    } else {
        items.push(item)
    }
}

/// The items without repetitions, each where it comes first.
pub open spec fn distinct<T>(items: Seq<T>) -> Seq<T>
    decreases items.len(),
{
    if items.len() == 0 {
        items
    } else {
        with_item(distinct(items.drop_last()), items.last())
    }
}

/// `IndexSet::new`: the new set holds nothing.
#[verifier::external_body]
fn format_set() -> (r: IndexSet<(u32, u64), std::hash::RandomState>)
    ensures
        format_entries(r).len() == 0,
{
    IndexSet::new()
}

/// `IndexSet::insert`: a value that is not there yet is appended; one that is there stays where it
/// is.
#[verifier::external_body]
fn format_insert(set: &mut IndexSet<(u32, u64), std::hash::RandomState>, value: (u32, u64))
    ensures
        format_entries(*final(set)) == with_item(format_entries(*old(set)), value),
{
    set.insert(value);
}

/// `IndexSet::retain`: the values for which the predicate holds stay, in their order.
#[verifier::external_body]
fn format_retain(set: &mut IndexSet<(u32, u64), std::hash::RandomState>, code: u32, opaque: u32)
    ensures
        format_entries(*final(set)) == format_entries(*old(set)).filter(of_code(code, opaque)),
{
    set.retain(|format| has_code(*format, code, opaque))
}

/// `IndexSet::iter`: all values, in their order.
#[verifier::external_body]
fn format_list(set: &IndexSet<(u32, u64), std::hash::RandomState>) -> (r: Vec<(u32, u64)>)
    ensures
        r@ == format_entries(*set),
{
    set.iter().copied().collect()
}

/// `IndexSet::new`: the new set holds nothing.
#[verifier::external_body]
fn modifier_set() -> (r: IndexSet<u64, std::hash::RandomState>)
    ensures
        modifier_entries(r).len() == 0,
{
    IndexSet::new()
}

/// `IndexSet::insert`: a value that is not there yet is appended; one that is there stays where it
/// is.
#[verifier::external_body]
fn modifier_insert(set: &mut IndexSet<u64, std::hash::RandomState>, value: u64)
    ensures
        modifier_entries(*final(set)) == with_item(modifier_entries(*old(set)), value),
{
    set.insert(value);
}

/// `IndexSet::intersection`: the values that are in both sets, in the order of the first one.
#[verifier::external_body]
fn modifier_intersection(
    set: &IndexSet<u64, std::hash::RandomState>,
    other: &IndexSet<u64, std::hash::RandomState>,
) -> (r: Vec<u64>)
    ensures
        r@ == modifier_entries(*set).filter(held_by(modifier_entries(*other))),
{
    set.intersection(other).copied().collect()
}

/// Tells the formats with one of two codes.
pub open spec fn of_code(code: u32, opaque: u32) -> spec_fn((u32, u64)) -> bool {
    |format: (u32, u64)| format.0 == code || format.0 == opaque
}

/// Tells the modifiers that are in a list.
pub open spec fn held_by(modifiers: Seq<u64>) -> spec_fn(u64) -> bool {
    |modifier: u64| modifiers.contains(modifier)
}

fn has_code(format: (u32, u64), code: u32, opaque: u32) -> (r: bool)
    ensures
        r == of_code(code, opaque)(format),
{
    format.0 == code || format.0 == opaque
}

pub open spec fn pair_of(format: Format) -> (u32, u64) {
    (format.code, format.modifier)
}

/// The formats of a plane that have the code, or the code of the same format without alpha.
pub open spec fn plane_candidates(formats: Seq<Format>, code: u32, opaque: u32) -> Seq<(u32, u64)> {
    distinct(formats.map_values(|format: Format| pair_of(format))).filter(of_code(code, opaque))
}

/// The modifiers of formats, without repetitions.
pub open spec fn modifiers_of(formats: Seq<(u32, u64)>) -> Seq<u64> {
    distinct(formats.map_values(|format: (u32, u64)| format.1))
}

/// The modifiers of the first list that are in the second.
pub open spec fn shared_modifiers(a: Seq<u64>, b: Seq<u64>) -> Seq<u64> {
    a.filter(held_by(b))
}

/// Why no format can be found.
#[derive(Clone, Copy, Debug, PartialEq, Eq, Structural)]
pub enum FormatError {
    NoSupportedPlaneFormat,
    NoSupportedRendererFormat,
}

fn collect_candidates(formats: &Vec<Format>, code: u32, opaque: u32) -> (r: Vec<(u32, u64)>)
    ensures
        r@ == plane_candidates(formats@, code, opaque),
{
    let mut set = format_set();
    let ghost pairs = formats@.map_values(|format: Format| pair_of(format));
    let mut i: usize = 0;
    assert(format_entries(set) =~= distinct(pairs.take(0)));
    while i < formats.len()
        invariant
            i <= formats.len(),
            pairs == formats@.map_values(|format: Format| pair_of(format)),
            format_entries(set) == distinct(pairs.take(i as int)),
        decreases formats.len() - i,
    {
        assert(pairs.take(i as int + 1).drop_last() =~= pairs.take(i as int));
        format_insert(&mut set, (formats[i].code, formats[i].modifier));
        i = i + 1;
    }
    assert(pairs.take(i as int) =~= pairs);
    format_retain(&mut set, code, opaque);
    format_list(&set)
}

fn collect_modifiers(formats: &Vec<(u32, u64)>) -> (r: IndexSet<u64, std::hash::RandomState>)
    ensures
        modifier_entries(r) == modifiers_of(formats@),
{
    let mut set = modifier_set();
    let ghost modifiers = formats@.map_values(|format: (u32, u64)| format.1);
    let mut i: usize = 0;
    assert(modifier_entries(set) =~= distinct(modifiers.take(0)));
    while i < formats.len()
        invariant
            i <= formats.len(),
            modifiers == formats@.map_values(|format: (u32, u64)| format.1),
            modifier_entries(set) == distinct(modifiers.take(i as int)),
        decreases formats.len() - i,
    {
        assert(modifiers.take(i as int + 1).drop_last() =~= modifiers.take(i as int));
        modifier_insert(&mut set, formats[i].1);
        i = i + 1;
    }
    assert(modifiers.take(i as int) =~= modifiers);
    set
}

fn modifier_list(modifiers: &Vec<u64>) -> (r: IndexSet<u64, std::hash::RandomState>)
    ensures
        modifier_entries(r) == distinct(modifiers@),
{
    let mut set = modifier_set();
    let mut i: usize = 0;
    assert(modifier_entries(set) =~= distinct(modifiers@.take(0)));
    while i < modifiers.len()
        invariant
            i <= modifiers.len(),
            modifier_entries(set) == distinct(modifiers@.take(i as int)),
        decreases modifiers.len() - i,
    {
        assert(modifiers@.take(i as int + 1).drop_last() =~= modifiers@.take(i as int));
        modifier_insert(&mut set, modifiers[i]);
        i = i + 1;
    }
    assert(modifiers@.take(i as int) =~= modifiers@);
    set
}

/// The modifiers for the swapchain, and whether the plane only takes the format without its alpha
/// channel.
#[derive(Clone, Debug)]
pub struct SwapchainFormat {
    pub modifiers: Vec<u64>,
    pub use_opaque: bool,
}

pub open spec fn any_with_code(formats: Seq<(u32, u64)>, code: u32) -> bool {
    exists|i: int| 0 <= i < formats.len() && (#[trigger] formats[i]).0 == code
}

fn has_any_with_code(formats: &Vec<(u32, u64)>, code: u32) -> (r: bool)
    ensures
        r == any_with_code(formats@, code),
{
    let mut i: usize = 0;
    while i < formats.len()
        invariant
            i <= formats.len(),
            forall|j: int| 0 <= j < i ==> (#[trigger] formats@[j]).0 != code,
        decreases formats.len() - i,
    {
        if formats[i].0 == code {
            assert(formats@[i as int].0 == code);
            return true;
        }
        i = i + 1;
    }
    false
}

/// The modifiers with which a swapchain of the format can be shown on the plane: those that both
/// the plane and the caller allow.
pub fn swapchain_format(
    plane_formats: &Vec<Format>,
    table: &FormatTable,
    code: u32,
    modifiers: &Vec<u64>,
) -> (r: Result<SwapchainFormat, FormatError>)
    ensures
        ({
            let candidates = plane_candidates(plane_formats@, code, table.opaque_or_same(code));
            let shared = shared_modifiers(modifiers_of(candidates), distinct(modifiers@));
            match r {
                Ok(format) => format.modifiers@ == shared && shared.len() > 0 && format.use_opaque
                    == !any_with_code(candidates, code),
                Err(error) => shared.len() == 0 && error == FormatError::NoSupportedPlaneFormat,
            }
        }),
{
    let candidates = collect_candidates(plane_formats, code, table.opaque_code(code));
    let plane_modifiers = collect_modifiers(&candidates);
    let allowed = modifier_list(modifiers);
    let shared = modifier_intersection(&plane_modifiers, &allowed);
    if shared.is_empty() {
        return Err(FormatError::NoSupportedPlaneFormat);
    }
    let use_opaque = !has_any_with_code(&candidates, code);
    Ok(SwapchainFormat { modifiers: shared, use_opaque })
}

/// The formats of the renderer with the code.
pub open spec fn renderer_candidates(formats: Seq<Format>, code: u32) -> Seq<(u32, u64)>
    decreases formats.len(),
{
    if formats.len() == 0 {
        Seq::empty()
    } else {
        let before = renderer_candidates(formats.drop_last(), code);
        if formats.last().code == code {
            before.push(pair_of(formats.last()))
        } else {
            before
        }
    }
}

fn collect_renderer(formats: &Vec<Format>, code: u32) -> (r: Vec<(u32, u64)>)
    ensures
        r@ == renderer_candidates(formats@, code),
{
    let mut kept: Vec<(u32, u64)> = Vec::new();
    let mut i: usize = 0;
    assert(formats@.take(0) =~= Seq::empty());
    while i < formats.len()
        invariant
            i <= formats.len(),
            kept@ == renderer_candidates(formats@.take(i as int), code),
        decreases formats.len() - i,
    {
        assert(formats@.take(i as int + 1).drop_last() =~= formats@.take(i as int));
        if formats[i].code == code {
            kept.push((formats[i].code, formats[i].modifier));
        }
        i = i + 1;
    }
    assert(formats@.take(i as int) =~= formats@);
    kept
}

pub open spec fn any_with_modifier(formats: Seq<(u32, u64)>, modifier: u64) -> bool {
    exists|i: int| 0 <= i < formats.len() && (#[trigger] formats[i]).1 == modifier
}

fn has_any_with_modifier(formats: &Vec<(u32, u64)>, modifier: u64) -> (r: bool)
    ensures
        r == any_with_modifier(formats@, modifier),
{
    let mut i: usize = 0;
    while i < formats.len()
        invariant
            i <= formats.len(),
            forall|j: int| 0 <= j < i ==> (#[trigger] formats@[j]).1 != modifier,
        decreases formats.len() - i,
    {
        if formats[i].1 == modifier {
            assert(formats@[i as int].1 == modifier);
            return true;
        }
        i = i + 1;
    }
    false
}

/// Whether one side knows nothing but the implicit layout while the other knows the linear one
/// and not the implicit one.
pub open spec fn implicit_against_linear(a: Seq<(u32, u64)>, b: Seq<(u32, u64)>) -> bool {
    a.len() == 1 && a[0].1 == implicit_layout() && !any_with_modifier(b, implicit_layout())
        && any_with_modifier(b, linear_layout())
}

fn is_implicit_against_linear(a: &Vec<(u32, u64)>, b: &Vec<(u32, u64)>) -> (r: bool)
    ensures
        r == implicit_against_linear(a@, b@),
{
    a.len() == 1 && a[0].1 == invalid_modifier() && !has_any_with_modifier(b, invalid_modifier())
        && has_any_with_modifier(b, linear_modifier())
}

pub open spec fn supported_modifiers_spec(
    plane: Seq<(u32, u64)>,
    renderer: Seq<(u32, u64)>,
) -> Seq<u64> {
    if implicit_against_linear(plane, renderer) || implicit_against_linear(renderer, plane) {
        seq![implicit_layout()]
    } else {
        shared_modifiers(modifiers_of(plane), modifiers_of(renderer))
    }
}

/// The modifiers with which both the plane and the renderer support the format.
///
/// Where one of them supports only the implicit layout and the other only explicit ones, the
/// linear one among them, the implicit layout is taken: the result is likely to be linear.
pub fn supported_modifiers(
    plane_formats: &Vec<Format>,
    renderer_formats: &Vec<Format>,
    table: &FormatTable,
    code: u32,
) -> (r: Result<Vec<u64>, FormatError>)
    ensures
        ({
            let plane = plane_candidates(plane_formats@, code, table.opaque_or_same(code));
            let renderer = renderer_candidates(renderer_formats@, code);
            match r {
                Ok(modifiers) => plane.len() > 0 && renderer.len() > 0 && modifiers@
                    == supported_modifiers_spec(plane, renderer),
                Err(FormatError::NoSupportedPlaneFormat) => plane.len() == 0,
                Err(FormatError::NoSupportedRendererFormat) => plane.len() > 0 && renderer.len()
                    == 0,
            }
        }),
{
    let plane = collect_candidates(plane_formats, code, table.opaque_code(code));
    if plane.is_empty() {
        return Err(FormatError::NoSupportedPlaneFormat);
    }
    let renderer = collect_renderer(renderer_formats, code);
    if renderer.is_empty() {
        return Err(FormatError::NoSupportedRendererFormat);
    }
    if is_implicit_against_linear(&plane, &renderer) || is_implicit_against_linear(
        &renderer,
        &plane,
    ) {
        let mut modifiers: Vec<u64> = Vec::new();
        modifiers.push(invalid_modifier());
        assert(modifiers@ =~= seq![implicit_layout()]);
        return Ok(modifiers);
    }
    let plane_modifiers = collect_modifiers(&plane);
    let renderer_modifiers = collect_modifiers(&renderer);
    Ok(modifier_intersection(&plane_modifiers, &renderer_modifiers))
}

/// No item is repeated among the distinct ones, and none is lost.
pub proof fn distinct_keeps_the_items<T>(items: Seq<T>)
    ensures
        distinct(items).no_duplicates(),
        forall|item: T| #[trigger] distinct(items).contains(item) <==> items.contains(item),
    decreases items.len(),
{
    if items.len() > 0 {
        let front = items.drop_last();
        distinct_keeps_the_items(front);
        let before = distinct(front);
        let after = distinct(items);
        assert forall|item: T| #[trigger] after.contains(item) <==> items.contains(item) by {
            if items.contains(item) {
                let k = choose|k: int| 0 <= k < items.len() && items[k] == item;
                if k < front.len() {
                    assert(front[k] == item);
                    assert(before.contains(item));
                    let j = choose|j: int| 0 <= j < before.len() && before[j] == item;
                    assert(after[j] == item);
                } else if !before.contains(item) {
                    assert(after[before.len() as int] == item);
                }
            }
            if after.contains(item) {
                let j = choose|j: int| 0 <= j < after.len() && after[j] == item;
                if j < before.len() {
                    assert(before[j] == item);
                    assert(before.contains(item));
                    assert(front.contains(item));
                    let k = choose|k: int| 0 <= k < front.len() && front[k] == item;
                    assert(items[k] == item);
                } else {
                    assert(items[items.len() - 1] == item);
                }
            }
        }
    }
}

/// Every modifier that is chosen is one that both sides support, unless it is the implicit one
/// standing in for the linear one.
pub proof fn chosen_modifiers_are_supported(
    plane: Seq<(u32, u64)>,
    renderer: Seq<(u32, u64)>,
    modifier: u64,
)
    requires
        supported_modifiers_spec(plane, renderer).contains(modifier),
    ensures
        (any_with_modifier(plane, modifier) && any_with_modifier(renderer, modifier)) || (modifier
            == implicit_layout() && (any_with_modifier(plane, linear_layout())
            || any_with_modifier(renderer, linear_layout()))),
{
    if !implicit_against_linear(plane, renderer) && !implicit_against_linear(renderer, plane) {
        let a = modifiers_of(plane);
        let b = modifiers_of(renderer);
        broadcast use vstd::seq_lib::group_filter_ensures;

        let shared = shared_modifiers(a, b);
        let i = choose|i: int| 0 <= i < shared.len() && shared[i] == modifier;
        assert(held_by(b)(shared[i]));
        lemma_filter_subset(a, held_by(b), modifier);
        lemma_modifier_origin(plane, modifier);
        lemma_modifier_origin(renderer, modifier);
    }
}

proof fn lemma_filter_subset(items: Seq<u64>, keep: spec_fn(u64) -> bool, item: u64)
    requires
        items.filter(keep).contains(item),
    ensures
        items.contains(item),
    decreases items.len(),
{
    reveal(Seq::filter);
    if items.len() > 0 {
        let front = items.drop_last();
        let kept = items.filter(keep);
        let i = choose|i: int| 0 <= i < kept.len() && kept[i] == item;
        if i < front.filter(keep).len() {
            assert(front.filter(keep)[i] == item);
            lemma_filter_subset(front, keep, item);
            let k = choose|k: int| 0 <= k < front.len() && front[k] == item;
            assert(items[k] == item);
        } else {
            assert(items[items.len() - 1] == item);
        }
    }
}

proof fn lemma_modifier_origin(formats: Seq<(u32, u64)>, modifier: u64)
    ensures
        modifiers_of(formats).contains(modifier) ==> any_with_modifier(formats, modifier),
{
    let modifiers = formats.map_values(|format: (u32, u64)| format.1);
    distinct_keeps_the_items(modifiers);
    if modifiers_of(formats).contains(modifier) {
        assert(modifiers.contains(modifier));
        let i = choose|i: int| 0 <= i < modifiers.len() && modifiers[i] == modifier;
        assert(formats[i].1 == modifier);
    }
}

} // verus!
