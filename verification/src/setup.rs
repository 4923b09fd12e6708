//! What is found out about a device before the first frame.

use vstd::prelude::*;
use vstd::string::*;
use crate::plane::{PlaneInfo, Planes};

verus! {

// ---------------------------------------------------------------------------------------------
// Planes
// ---------------------------------------------------------------------------------------------

/// A list with one more plane, behind all that are not lower.
pub open spec fn insert_by_height(sorted: Seq<PlaneInfo>, plane: PlaneInfo) -> Seq<PlaneInfo>
    decreases sorted.len(),
{
    if sorted.len() == 0 || sorted.last().z_spec() >= plane.z_spec() {
        sorted.push(plane)
    } else {
        insert_by_height(sorted.drop_last(), plane).push(sorted.last())
    }
}

/// The planes from front to back, those at the same position in the order they had.
pub open spec fn front_to_back(planes: Seq<PlaneInfo>) -> Seq<PlaneInfo>
    decreases planes.len(),
{
    if planes.len() == 0 {
        planes
    } else {
        insert_by_height(front_to_back(planes.drop_last()), planes.last())
    }
}

proof fn lemma_insert_at(sorted: Seq<PlaneInfo>, plane: PlaneInfo, at: int)
    requires
        0 <= at <= sorted.len(),
        at > 0 ==> sorted[at - 1].z_spec() >= plane.z_spec(),
        forall|j: int| at <= j < sorted.len() ==> (#[trigger] sorted[j]).z_spec() < plane.z_spec(),
    ensures
        insert_by_height(sorted, plane) == sorted.insert(at, plane),
    decreases sorted.len(),
{
    if sorted.len() == 0 || sorted.last().z_spec() >= plane.z_spec() {
        if at < sorted.len() {
            assert(sorted[sorted.len() - 1].z_spec() < plane.z_spec());
        }
        assert(sorted.insert(at, plane) =~= sorted.push(plane));
    } else {
        let front = sorted.drop_last();
        lemma_insert_at(front, plane, at);
        assert(front.insert(at, plane).push(sorted.last()) =~= sorted.insert(at, plane));
    }
}

fn sort_front_to_back(planes: Vec<PlaneInfo>) -> (r: Vec<PlaneInfo>)
    ensures
        r@ == front_to_back(planes@),
{
    let ghost all = planes@;
    let mut rest = planes;
    let mut sorted: Vec<PlaneInfo> = Vec::new();
    assert(all.take(0) =~= Seq::empty());
    assert(all.skip(0) =~= all);
    let ghost mut n: int = 0;
    while !rest.is_empty()
        invariant
            0 <= n <= all.len(),
            rest@ == all.skip(n),
            sorted@ == front_to_back(all.take(n)),
        decreases rest.len(),
    {
        let plane = rest.remove(0);
        let z: i32 = plane.z();
        let mut at: usize = sorted.len();
        while at > 0 && sorted[at - 1].z() < z
            invariant
                at <= sorted.len(),
                z == plane.z_spec(),
                forall|j: int| at <= j < sorted@.len() ==> (#[trigger] sorted@[j]).z_spec() < z,
            decreases at,
        {
            at = at - 1;
        }
        proof {
            assert(plane == all[n]);
            lemma_insert_at(sorted@, plane, at as int);
            assert(all.take(n + 1).drop_last() =~= all.take(n));
            assert(all.skip(n).remove(0) =~= all.skip(n + 1));
            n = n + 1;
        }
        sorted.insert(at, plane);
    }
    assert(all.take(n) =~= all);
    sorted
}

/// The planes as a compositor uses them: from front to back, and only the primary ones where the
/// surface knows no others.
pub fn prepare_planes(planes: Planes, is_legacy: bool) -> (r: Planes)
    ensures
        r.primary@ == planes.primary@,
        r.cursor@ == (if is_legacy {
            Seq::empty()
        } else {
            planes.cursor@
        }),
        r.overlay@ == (if is_legacy {
            Seq::empty()
        } else {
            front_to_back(planes.overlay@)
        }),
{
    if is_legacy {
        Planes { primary: planes.primary, cursor: Vec::new(), overlay: Vec::new() }
    } else {
        Planes {
            primary: planes.primary,
            cursor: planes.cursor,
            overlay: sort_front_to_back(planes.overlay),
        }
    }
}

proof fn lemma_insert_sorted(sorted: Seq<PlaneInfo>, plane: PlaneInfo)
    requires
        forall|i: int, j: int|
            0 <= i < j < sorted.len() ==> (#[trigger] sorted[i]).z_spec() >= (
            #[trigger] sorted[j]).z_spec(),
    ensures
        insert_by_height(sorted, plane).to_multiset() == sorted.to_multiset().insert(plane),
        insert_by_height(sorted, plane).len() == sorted.len() + 1,
        forall|i: int, j: int|
            0 <= i < j < insert_by_height(sorted, plane).len() ==> (#[trigger] insert_by_height(
                sorted,
                plane,
            )[i]).z_spec() >= (#[trigger] insert_by_height(sorted, plane)[j]).z_spec(),
        sorted.len() > 0 ==> insert_by_height(sorted, plane).last().z_spec() == (if sorted.last().z_spec()
            >= plane.z_spec() {
            plane.z_spec()
        } else {
            sorted.last().z_spec()
        }),
        sorted.len() == 0 ==> insert_by_height(sorted, plane).last().z_spec() == plane.z_spec(),
    decreases sorted.len(),
{
    sorted.to_multiset_ensures();
    if !(sorted.len() == 0 || sorted.last().z_spec() >= plane.z_spec()) {
        let front = sorted.drop_last();
        lemma_insert_sorted(front, plane);
        let inner = insert_by_height(front, plane);
        inner.to_multiset_ensures();
        front.to_multiset_ensures();
        assert(front.push(sorted.last()) =~= sorted);
        let result = inner.push(sorted.last());
        assert(inner.last().z_spec() >= sorted.last().z_spec()) by {
            if front.len() > 0 {
                assert(front.last() == sorted[sorted.len() - 2]);
            }
        }
        assert forall|i: int, j: int| 0 <= i < j < result.len() implies (
        #[trigger] result[i]).z_spec() >= (#[trigger] result[j]).z_spec() by {
            if j == inner.len() && i < inner.len() - 1 {
                assert(inner[i].z_spec() >= inner[inner.len() - 1].z_spec());
            }
        }
        assert(inner.to_multiset().insert(sorted.last()) =~= sorted.to_multiset().insert(plane));
    }
}

/// Sorting front to back loses no plane, and no plane comes before one that is above it.
pub proof fn planes_are_ordered(planes: Seq<PlaneInfo>)
    ensures
        front_to_back(planes).to_multiset() == planes.to_multiset(),
        front_to_back(planes).len() == planes.len(),
        forall|i: int, j: int|
            0 <= i < j < front_to_back(planes).len() ==> (#[trigger] front_to_back(
                planes,
            )[i]).z_spec() >= (#[trigger] front_to_back(planes)[j]).z_spec(),
    decreases planes.len(),
{
    if planes.len() > 0 {
        planes_are_ordered(planes.drop_last());
        lemma_insert_sorted(front_to_back(planes.drop_last()), planes.last());
        planes.drop_last().to_multiset_ensures();
        assert(planes.drop_last().push(planes.last()) =~= planes);
    }
}

// ---------------------------------------------------------------------------------------------
// The driver
// ---------------------------------------------------------------------------------------------

fn chars_of(text: &str) -> (r: Vec<char>)
    ensures
        r@ == text@,
{
    let n: usize = text.unicode_len();
    let mut chars: Vec<char> = Vec::new();
    let mut i: usize = 0;
    while i < n
        invariant
            i <= n,
            n == text@.len(),
            chars@ == text@.take(i as int),
        decreases n - i,
    {
        chars.push(text.get_char(i));
        assert(chars@ =~= text@.take(i as int + 1));
        i = i + 1;
    }
    assert(text@.take(i as int) =~= text@);
    chars
}

/// The six letters `nvidia`.
pub open spec fn nvidia_letters() -> Seq<char> {
    seq!['n', 'v', 'i', 'd', 'i', 'a']
}

/// Whether a character is the given lower case letter or its upper case.
pub open spec fn same_letter(c: char, lower: char) -> bool {
    c == lower || c as u32 + 32 == lower as u32
}

/// Whether the text holds the letters, in upper or lower case, from a position on.
pub open spec fn letters_at(text: Seq<char>, at: int) -> bool {
    at + 6 <= text.len() && forall|j: int|
        0 <= j < 6 ==> same_letter(#[trigger] text[at + j], nvidia_letters()[j])
}

pub open spec fn names_nvidia(text: Seq<char>) -> bool {
    exists|at: int| 0 <= at && #[trigger] letters_at(text, at)
}

fn is_letter(c: char, lower: char) -> (r: bool)
    requires
        lower as u32 >= 32,
    ensures
        r == same_letter(c, lower),
{
    c == lower || c as u32 == lower as u32 - 32
}

fn contains_nvidia(text: &str) -> (r: bool)
    ensures
        r == names_nvidia(text@),
{
    let chars = chars_of(text);
    let mut at: usize = 0;
    while at < chars.len() && chars.len() - at >= 6
        invariant
            at <= chars.len(),
            chars@ == text@,
            forall|k: int| 0 <= k < at ==> !(#[trigger] letters_at(chars@, k)),
        decreases chars.len() - at,
    {
        let found = is_letter(chars[at], 'n') && is_letter(chars[at + 1], 'v') && is_letter(
            chars[at + 2],
            'i',
        ) && is_letter(chars[at + 3], 'd') && is_letter(chars[at + 4], 'i') && is_letter(
            chars[at + 5],
            'a',
        );
        if found {
            assert(letters_at(chars@, at as int)) by {
                let a = at as int;
                assert forall|j: int| 0 <= j < 6 implies same_letter(
                    #[trigger] chars@[a + j],
                    nvidia_letters()[j],
                ) by {
                    assert(chars@[a] == chars@[a + 0]);
                    assert(j == 0 || j == 1 || j == 2 || j == 3 || j == 4 || j == 5);
                }
            }
            return true;
        }
        assert(!letters_at(chars@, at as int)) by {
            let a = at as int;
            if letters_at(chars@, a) {
                assert(same_letter(chars@[a + 0], nvidia_letters()[0]));
                assert(same_letter(chars@[a + 1], nvidia_letters()[1]));
                assert(same_letter(chars@[a + 2], nvidia_letters()[2]));
                assert(same_letter(chars@[a + 3], nvidia_letters()[3]));
                assert(same_letter(chars@[a + 4], nvidia_letters()[4]));
                assert(same_letter(chars@[a + 5], nvidia_letters()[5]));
            }
        }
        at = at + 1;
    }
    assert(!names_nvidia(chars@)) by {
        assert forall|k: int| 0 <= k implies !(#[trigger] letters_at(chars@, k)) by {}
    }
    false
}

/// Whether the driver is one of Nvidia's, by its name or its description.
pub fn is_nvidia(name: &str, description: &str) -> (r: bool)
    ensures
        r == (names_nvidia(name@) || names_nvidia(description@)),
{
    contains_nvidia(name) || contains_nvidia(description)
}

/// The characters that count as white space.
pub open spec fn is_space(c: char) -> bool {
    let n = c as u32;
    (9 <= n <= 13) || n == 0x20 || n == 0x85 || n == 0xa0 || n == 0x1680 || (0x2000 <= n <= 0x200a)
        || n == 0x2028 || n == 0x2029 || n == 0x202f || n == 0x205f || n == 0x3000
}

fn is_white_space(c: char) -> (r: bool)
    ensures
        r == is_space(c),
{
    let n: u32 = c as u32;
    (9 <= n && n <= 13) || n == 0x20 || n == 0x85 || n == 0xa0 || n == 0x1680 || (0x2000 <= n && n
        <= 0x200a) || n == 0x2028 || n == 0x2029 || n == 0x202f || n == 0x205f || n == 0x3000
}

/// The text without white space at its ends.
pub open spec fn trimmed(text: Seq<char>) -> Seq<char>
    decreases text.len(),
{
    if text.len() == 0 {
        text
    } else if is_space(text[0]) {
        trimmed(text.skip(1))
    } else if is_space(text.last()) {
        trimmed(text.drop_last())
    } else {
        text
    }
}

/// Whether a character is a decimal digit.
pub open spec fn is_digit(c: char) -> bool {
    '0' as u32 <= c as u32 <= '9' as u32
}

/// The number that decimal digits stand for.
pub open spec fn digits_value(digits: Seq<char>) -> int
    decreases digits.len(),
{
    if digits.len() == 0 {
        0
    } else {
        digits_value(digits.drop_last()) * 10 + (digits.last() as u32 - '0' as u32)
    }
}

pub open spec fn all_digits(digits: Seq<char>) -> bool {
    forall|i: int| 0 <= i < digits.len() ==> is_digit(#[trigger] digits[i])
}

/// The number that a text stands for: decimal digits, at least one, maybe after a plus sign, that
/// make a number in range.
pub open spec fn number_of(text: Seq<char>) -> Option<u32> {
    let digits = if text.len() > 0 && text[0] == '+' {
        text.skip(1)
    } else {
        text
    };
    if digits.len() > 0 && all_digits(digits) && digits_value(digits) <= u32::MAX {
        Some(digits_value(digits) as u32)
    } else {
        None
    }
}

/// The position of the first dot, or the length where there is none.
pub open spec fn first_dot(text: Seq<char>) -> int
    decreases text.len(),
{
    if text.len() == 0 || text[0] == '.' {
        0
    } else {
        1 + first_dot(text.skip(1))
    }
}

/// What follows the first dot.
pub open spec fn after_dot(text: Seq<char>) -> Option<Seq<char>> {
    if first_dot(text) < text.len() {
        Some(text.skip(first_dot(text) + 1))
    } else {
        None
    }
}

/// The first three numbers between dots.
pub open spec fn version_of(text: Seq<char>) -> Option<(u32, u32, u32)> {
    let first = trimmed(text);
    match after_dot(first) {
        None => None,
        Some(second) => match after_dot(second) {
            None => None,
            Some(third) => match (
                number_of(first.take(first_dot(first))),
                number_of(second.take(first_dot(second))),
                number_of(third.take(first_dot(third))),
            ) {
                (Some(major), Some(minor), Some(patch)) => Some((major, minor, patch)),
                _ => None,
            },
        },
    }
}

proof fn lemma_first_dot(text: Seq<char>)
    ensures
        0 <= first_dot(text) <= text.len(),
    decreases text.len(),
{
    if text.len() > 0 && text[0] != '.' {
        lemma_first_dot(text.skip(1));
    }
}

fn find_dot(text: &Vec<char>, start: usize, end: usize) -> (r: usize)
    requires
        start <= end <= text@.len(),
    ensures
        start <= r <= end,
        r - start == first_dot(text@.subrange(start as int, end as int)),
{
    let mut i: usize = start;
    let ghost whole = text@.subrange(start as int, end as int);
    assert(whole.skip(0) =~= whole);
    while i < end && text[i] != '.'
        invariant
            start <= i <= end,
            end <= text@.len(),
            whole == text@.subrange(start as int, end as int),
            first_dot(whole) == i - start + first_dot(whole.skip(i - start)),
        decreases end - i,
    {
        assert(whole.skip(i - start)[0] == text@[i as int]);
        assert(whole.skip(i - start).skip(1) =~= whole.skip(i - start + 1));
        i = i + 1;
    }
    proof {
        let rest = whole.skip(i - start);
        if i < end {
            assert(rest[0] == text@[i as int]);
        }
        assert(first_dot(rest) == 0);
    }
    i
}

proof fn lemma_value(digits: Seq<char>, n: int)
    requires
        all_digits(digits),
        0 <= n <= digits.len(),
    ensures
        0 <= digits_value(digits.take(n)) <= digits_value(digits),
    decreases digits.len(),
{
    if n == digits.len() {
        assert(digits.take(n) =~= digits);
        if n > 0 {
            let front = digits.drop_last();
            assert(all_digits(front)) by {
                assert forall|i: int| 0 <= i < front.len() implies is_digit(#[trigger] front[i]) by {
                    assert(front[i] == digits[i]);
                }
            }
            lemma_value(front, n - 1);
            assert(front.take(n - 1) =~= front);
            assert(is_digit(digits[digits.len() - 1]));
        }
    } else {
        let front = digits.drop_last();
        assert(all_digits(front)) by {
            assert forall|i: int| 0 <= i < front.len() implies is_digit(#[trigger] front[i]) by {
                assert(front[i] == digits[i]);
            }
        }
        lemma_value(front, n);
        assert(front.take(n) =~= digits.take(n));
        assert(is_digit(digits[digits.len() - 1]));
    }
}

fn parse_number(text: &Vec<char>, start: usize, end: usize) -> (r: Option<u32>)
    requires
        start <= end <= text@.len(),
    ensures
        r == number_of(text@.subrange(start as int, end as int)),
{
    let ghost whole = text@.subrange(start as int, end as int);
    let mut from: usize = start;
    if start < end && text[start] == '+' {
        assert(whole[0] == '+');
        from = start + 1;
    } else if start < end {
        assert(whole[0] == text@[start as int]);
    }
    let ghost digits = text@.subrange(from as int, end as int);
    assert(digits =~= (if whole.len() > 0 && whole[0] == '+' {
        whole.skip(1)
    } else {
        whole
    }));
    if from == end {
        return None;
    }
    let mut value: u64 = 0;
    let mut i: usize = from;
    assert(digits.take(0) =~= Seq::empty());
    while i < end
        invariant
            from <= i <= end,
            end <= text@.len(),
            from < end,
            digits == text@.subrange(from as int, end as int),
            digits == (if whole.len() > 0 && whole[0] == '+' {
                whole.skip(1)
            } else {
                whole
            }),
            whole == text@.subrange(start as int, end as int),
            all_digits(digits.take(i - from)),
            value == digits_value(digits.take(i - from)),
            value <= u32::MAX,
        decreases end - i,
    {
        let c: u32 = text[i] as u32;
        let ghost upto = digits.take(i - from + 1);
        proof {
            assert(upto.drop_last() =~= digits.take(i - from));
            assert(upto.last() == text@[i as int]);
            assert(digits[i - from] == text@[i as int]);
        }
        if c < '0' as u32 || c > '9' as u32 {
            assert(!is_digit(digits[i - from]));
            return None;
        }
        proof {
            assert(all_digits(upto)) by {
                assert forall|j: int| 0 <= j < upto.len() implies is_digit(#[trigger] upto[j]) by {
                    if j < i - from {
                        assert(digits.take(i - from)[j] == upto[j]);
                    }
                }
            }
        }
        value = value * 10 + (c - '0' as u32) as u64;
        if value > u32::MAX as u64 {
            proof {
                if all_digits(digits) {
                    lemma_value(digits, i - from + 1);
                }
            }
            return None;
        }
        i = i + 1;
    }
    assert(digits.take(i - from) =~= digits);
    Some(value as u32)
}

fn trim_range(text: &Vec<char>) -> (r: (usize, usize))
    ensures
        r.0 <= r.1 <= text@.len(),
        text@.subrange(r.0 as int, r.1 as int) == trimmed(text@),
{
    let mut start: usize = 0;
    let mut end: usize = text.len();
    assert(text@.subrange(0, end as int) =~= text@);
    while start < end && is_white_space(text[start])
        invariant
            start <= end <= text@.len(),
            trimmed(text@.subrange(start as int, end as int)) == trimmed(text@),
        decreases end - start,
    {
        let ghost part = text@.subrange(start as int, end as int);
        assert(part[0] == text@[start as int]);
        assert(part.skip(1) =~= text@.subrange(start as int + 1, end as int));
        start = start + 1;
    }
    while start < end && is_white_space(text[end - 1])
        invariant
            start <= end <= text@.len(),
            start < end ==> !is_space(text@[start as int]),
            trimmed(text@.subrange(start as int, end as int)) == trimmed(text@),
        decreases end - start,
    {
        let ghost part = text@.subrange(start as int, end as int);
        assert(part[0] == text@[start as int]);
        assert(part.last() == text@[end as int - 1]);
        assert(part.drop_last() =~= text@.subrange(start as int, end as int - 1));
        end = end - 1;
    }
    proof {
        let part = text@.subrange(start as int, end as int);
        if start < end {
            assert(part[0] == text@[start as int]);
            assert(part.last() == text@[end as int - 1]);
        }
        assert(trimmed(part) == part);
    }
    (start, end)
}

/// Reads a driver version of three numbers out of what the kernel module says.
pub fn parse_driver_version(text: &str) -> (r: Option<(u32, u32, u32)>)
    ensures
        r == version_of(text@),
{
    let chars = chars_of(text);
    let (start, end) = trim_range(&chars);
    let ghost first = trimmed(text@);
    let dot: usize = find_dot(&chars, start, end);
    assert(chars@.subrange(start as int, dot as int) =~= first.take(first_dot(first)));
    if dot == end {
        return None;
    }
    let ghost second = first.skip(first_dot(first) + 1);
    assert(chars@.subrange(dot as int + 1, end as int) =~= second);
    let second_dot: usize = find_dot(&chars, dot + 1, end);
    assert(chars@.subrange(dot as int + 1, second_dot as int) =~= second.take(first_dot(second)));
    if second_dot == end {
        return None;
    }
    let ghost third = second.skip(first_dot(second) + 1);
    assert(chars@.subrange(second_dot as int + 1, end as int) =~= third);
    let third_dot: usize = find_dot(&chars, second_dot + 1, end);
    assert(chars@.subrange(second_dot as int + 1, third_dot as int) =~= third.take(
        first_dot(third),
    ));
    let major = parse_number(&chars, start, dot);
    let minor = parse_number(&chars, dot + 1, second_dot);
    let patch = parse_number(&chars, second_dot + 1, third_dot);
    match (major, minor, patch) {
        (Some(major), Some(minor), Some(patch)) => Some((major, minor, patch)),
        _ => None,
    }
}

/// Whether a version is the one in which fences work, or a later one.
pub open spec fn has_working_fences(version: Option<(u32, u32, u32)>) -> bool {
    match version {
        None => false,
        Some((major, minor, patch)) => major > 560 || (major == 560 && (minor > 35 || (minor == 35
            && patch >= 3))),
    }
}

fn fences_work(version: Option<(u32, u32, u32)>) -> (r: bool)
    ensures
        r == has_working_fences(version),
{
    match version {
        None => false,
        Some((major, minor, patch)) => major > 560 || (major == 560 && (minor > 35 || (minor == 35
            && patch >= 3))),
    }
}

/// What has to be asked to find out whether fences can be used.
#[derive(Clone, Copy, Debug, PartialEq, Eq, Structural)]
pub enum FencingStep {
    /// Whether the driver has synchronization objects.
    QueryCapability,
    /// Whether the primary plane takes fences.
    QueryProperty,
    Done(bool),
}

impl FencingStep {
    /// A legacy surface knows no fences; any other is asked.
    pub fn start(is_legacy: bool) -> (r: FencingStep)
        ensures
            r == (if is_legacy {
                FencingStep::Done(false)
            } else {
                FencingStep::QueryCapability
            }),
    {
        if is_legacy {
            FencingStep::Done(false)
        } else {
            FencingStep::QueryCapability
        }
    }

    pub fn after_capability(value: u64) -> (r: FencingStep)
        ensures
            r == (if value != 0 {
                FencingStep::QueryProperty
            } else {
                FencingStep::Done(false)
            }),
    {
        if value != 0 {
            FencingStep::QueryProperty
        } else {
            FencingStep::Done(false)
        }
    }

    /// Older drivers of Nvidia fail on fences although they take them.
    pub fn after_property(present: bool, is_nvidia: bool, version: Option<(u32, u32, u32)>) -> (r:
        FencingStep)
        ensures
            r == FencingStep::Done(present && (is_nvidia ==> has_working_fences(version))),
    {
        FencingStep::Done(present && !(is_nvidia && !fences_work(version)))
    }
}

} // verus!
