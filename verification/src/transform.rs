//! Turning and mirroring of outputs, buffers and the points in them.

use vstd::prelude::*;
use crate::buffer::UnderlyingStorage;
use crate::geometry::{fits, Point, Rectangle, Size, Transform};

verus! {

/// Whether a transform mirrors.
pub open spec fn flipped_spec(t: Transform) -> bool {
    match t {
        Transform::Normal | Transform::_90 | Transform::_180 | Transform::_270 => false,
        _ => true,
    }
}

/// How many quarter turns a transform makes.
pub open spec fn turns_spec(t: Transform) -> int {
    match t {
        Transform::Normal | Transform::Flipped => 0,
        Transform::_90 | Transform::Flipped90 => 1,
        Transform::_180 | Transform::Flipped180 => 2,
        Transform::_270 | Transform::Flipped270 => 3,
    }
}

/// The transform that mirrors or not and makes the given number of quarter turns.
pub open spec fn compose_spec(flip: bool, quarter_turns: int) -> Transform {
    if flip {
        if quarter_turns == 0 {
            Transform::Flipped
        } else if quarter_turns == 1 {
            Transform::Flipped90
        } else if quarter_turns == 2 {
            Transform::Flipped180
        } else {
            Transform::Flipped270
        }
    } else {
        if quarter_turns == 0 {
            Transform::Normal
        } else if quarter_turns == 1 {
            Transform::_90
        } else if quarter_turns == 2 {
            Transform::_180
        } else {
            Transform::_270
        }
    }
}

fn flipped(t: Transform) -> (r: bool)
    ensures
        r == flipped_spec(t),
{
    match t {
        Transform::Normal | Transform::_90 | Transform::_180 | Transform::_270 => false,
        Transform::Flipped | Transform::Flipped90 | Transform::Flipped180
        | Transform::Flipped270 => true,
    }
}

fn turns(t: Transform) -> (r: u8)
    ensures
        r == turns_spec(t),
        r < 4,
{
    match t {
        Transform::Normal | Transform::Flipped => 0,
        Transform::_90 | Transform::Flipped90 => 1,
        Transform::_180 | Transform::Flipped180 => 2,
        Transform::_270 | Transform::Flipped270 => 3,
    }
}

fn compose(flip: bool, quarter_turns: u8) -> (r: Transform)
    requires
        quarter_turns < 4,
    ensures
        r == compose_spec(flip, quarter_turns as int),
{
    if flip {
        match quarter_turns {
            0 => Transform::Flipped,
            1 => Transform::Flipped90,
            2 => Transform::Flipped180,
            _ => Transform::Flipped270,
        }
    } else {
        match quarter_turns {
            0 => Transform::Normal,
            1 => Transform::_90,
            2 => Transform::_180,
            _ => Transform::_270,
        }
    }
}

/// The mirrorings cancel, and the turns of `transform` are taken off those of the output.
pub open spec fn apply_output_transform_spec(
    transform: Transform,
    output_transform: Transform,
) -> Transform {
    compose_spec(
        flipped_spec(transform) != flipped_spec(output_transform),
        (turns_spec(output_transform) - turns_spec(transform)) % 4,
    )
}

/// The transform as seen through an output that is itself transformed.
pub fn apply_output_transform(transform: Transform, output_transform: Transform) -> (r: Transform)
    ensures
        r == apply_output_transform_spec(transform, output_transform),
{
    let flip = flipped(transform) != flipped(output_transform);
    let quarter_turns: u8 = (turns(output_transform) + 4 - turns(transform)) % 4;
    compose(flip, quarter_turns)
}

pub open spec fn apply_underlying_storage_transform_spec(
    element_transform: Transform,
    storage: UnderlyingStorage,
) -> Transform {
    compose_spec(
        flipped_spec(element_transform) != storage.y_inverted_spec(),
        turns_spec(element_transform),
    )
}

/// The element's transform, mirrored once more where its buffer is stored bottom up.
pub fn apply_underlying_storage_transform(
    element_transform: Transform,
    storage: &UnderlyingStorage,
) -> (r: Transform)
    ensures
        r == apply_underlying_storage_transform_spec(element_transform, *storage),
{
    match storage {
        UnderlyingStorage::Wayland(buffer) => {
            if buffer.y_inverted.unwrap_or(false) {
                compose(!flipped(element_transform), turns(element_transform))
            } else {
                element_transform
            }
        },
        UnderlyingStorage::Memory => element_transform,
    }
}

impl Transform {
    pub open spec fn invert_spec(self) -> Transform {
        compose_spec(flipped_spec(self), (-turns_spec(self)) % 4)
    }

    /// The transform that turns back.
    pub fn invert(self) -> (r: Transform)
        ensures
            r == self.invert_spec(),
    {
        compose(flipped(self), (4 - turns(self)) % 4)
    }

    pub open spec fn transform_size_spec(self, size: Size) -> Size {
        if turns_spec(self) % 2 == 1 {
            Size { w: size.h, h: size.w }
        } else {
            size
        }
    }

    /// The extent after the transform: the sides trade places on a quarter turn.
    pub fn transform_size(self, size: Size) -> (r: Size)
        ensures
            r == self.transform_size_spec(size),
    {
        if turns(self) % 2 == 1 {
            Size { w: size.h, h: size.w }
        } else {
            size
        }
    }

    /// Where the point `(x, y)` of an area with the given extent ends up.
    pub open spec fn transform_point_spec(self, x: int, y: int, w: int, h: int) -> (int, int) {
        match self {
            Transform::Normal => (x, y),
            Transform::_90 => (h - y, x),
            Transform::_180 => (w - x, h - y),
            Transform::_270 => (y, w - x),
            Transform::Flipped => (w - x, y),
            Transform::Flipped90 => (y, x),
            Transform::Flipped180 => (x, h - y),
            Transform::Flipped270 => (h - y, w - x),
        }
    }

    pub open spec fn point_spec(self, point: Point, area: Size) -> (int, int) {
        self.transform_point_spec(point.x as int, point.y as int, area.w as int, area.h as int)
    }

    pub fn transform_point_in(self, point: Point, area: Size) -> (r: Point)
        requires
            fits(self.point_spec(point, area).0),
            fits(self.point_spec(point, area).1),
        ensures
            r.x == self.point_spec(point, area).0,
            r.y == self.point_spec(point, area).1,
    {
        match self {
            Transform::Normal => point,
            Transform::_90 => Point { x: area.h - point.y, y: point.x },
            Transform::_180 => Point { x: area.w - point.x, y: area.h - point.y },
            Transform::_270 => Point { x: point.y, y: area.w - point.x },
            Transform::Flipped => Point { x: area.w - point.x, y: point.y },
            Transform::Flipped90 => Point { x: point.y, y: point.x },
            Transform::Flipped180 => Point { x: point.x, y: area.h - point.y },
            Transform::Flipped270 => Point { x: area.h - point.y, y: area.w - point.x },
        }
    }

    /// The top left corner of the transformed rectangle: of the two corners that a transform may
    /// bring there, the one it does.
    pub open spec fn rect_loc_spec(self, rect: Rectangle, area: Size) -> (int, int) {
        let x = rect.loc.x as int;
        let y = rect.loc.y as int;
        let right = x + rect.size.w;
        let bottom = y + rect.size.h;
        let w = area.w as int;
        let h = area.h as int;
        match self {
            Transform::Normal => (x, y),
            Transform::_90 => (h - bottom, x),
            Transform::_180 => (w - right, h - bottom),
            Transform::_270 => (y, w - right),
            Transform::Flipped => (w - right, y),
            Transform::Flipped90 => (y, x),
            Transform::Flipped180 => (x, h - bottom),
            Transform::Flipped270 => (h - bottom, w - right),
        }
    }

    pub open spec fn transform_rect_spec(self, rect: Rectangle, area: Size) -> Rectangle {
        Rectangle {
            loc: Point {
                x: self.rect_loc_spec(rect, area).0 as i32,
                y: self.rect_loc_spec(rect, area).1 as i32,
            },
            size: self.transform_size_spec(rect.size),
        }
    }

    /// Whether the transformed rectangle can be represented.
    pub open spec fn rect_fits(self, rect: Rectangle, area: Size) -> bool {
        rect.regular() && fits(self.rect_loc_spec(rect, area).0) && fits(
            self.rect_loc_spec(rect, area).1,
        )
    }

    pub fn transform_rect_in(self, rect: Rectangle, area: Size) -> (r: Rectangle)
        requires
            self.rect_fits(rect, area),
        ensures
            r == self.transform_rect_spec(rect, area),
    {
        let size = self.transform_size(rect.size);
        let x: i32 = rect.loc.x;
        let y: i32 = rect.loc.y;
        let right: i32 = x + rect.size.w;
        let bottom: i32 = y + rect.size.h;
        let loc = match self {
            Transform::Normal => Point { x, y },
            Transform::_90 => Point { x: area.h - bottom, y: x },
            Transform::_180 => Point { x: area.w - right, y: area.h - bottom },
            Transform::_270 => Point { x: y, y: area.w - right },
            Transform::Flipped => Point { x: area.w - right, y },
            Transform::Flipped90 => Point { x: y, y: x },
            Transform::Flipped180 => Point { x, y: area.h - bottom },
            Transform::Flipped270 => Point { x: area.h - bottom, y: area.w - right },
        };
        Rectangle { loc, size }
    }
}

/// Where the origin of a cursor plane lies: the transformed element location, less the offset
/// that the transform gives the origin of the plane itself.
pub open spec fn cursor_plane_location_spec(
    element_location: Point,
    cursor_plane_size: Size,
    output_geometry: Rectangle,
    output_transform: Transform,
) -> (int, int) {
    let placed = output_transform.point_spec(element_location, output_geometry.size);
    let origin = output_transform.point_spec(Point { x: 0, y: 0 }, cursor_plane_size);
    (placed.0 - origin.0, placed.1 - origin.1)
}

/// Whether every coordinate on the way to the cursor plane's origin can be represented.
pub open spec fn cursor_plane_location_fits(
    element_location: Point,
    cursor_plane_size: Size,
    output_geometry: Rectangle,
    output_transform: Transform,
) -> bool {
    let placed = output_transform.point_spec(element_location, output_geometry.size);
    let origin = output_transform.point_spec(Point { x: 0, y: 0 }, cursor_plane_size);
    let location = cursor_plane_location_spec(
        element_location,
        cursor_plane_size,
        output_geometry,
        output_transform,
    );
    fits(placed.0) && fits(placed.1) && fits(origin.0) && fits(origin.1) && fits(location.0)
        && fits(location.1)
}

pub open spec fn cursor_plane_origin(
    element_location: Point,
    cursor_plane_size: Size,
    output_geometry: Rectangle,
    output_transform: Transform,
) -> Point {
    let location = cursor_plane_location_spec(
        element_location,
        cursor_plane_size,
        output_geometry,
        output_transform,
    );
    Point { x: location.0 as i32, y: location.1 as i32 }
}

/// Calculate the physical cursor-plane origin used by both atomic and legacy cursor paths.
pub fn cursor_plane_location(
    element_location: Point,
    cursor_plane_size: Size,
    output_geometry: Rectangle,
    output_transform: Transform,
) -> (r: Point)
    requires
        cursor_plane_location_fits(
            element_location,
            cursor_plane_size,
            output_geometry,
            output_transform,
        ),
    ensures
        r == cursor_plane_origin(
            element_location,
            cursor_plane_size,
            output_geometry,
            output_transform,
        ),
{
    let placed = output_transform.transform_point_in(element_location, output_geometry.size);
    let origin = output_transform.transform_point_in(Point { x: 0, y: 0 }, cursor_plane_size);
    Point { x: placed.x - origin.x, y: placed.y - origin.y }
}

/// A transform is made of whether it mirrors and how far it turns.
pub proof fn transform_is_its_parts(t: Transform)
    ensures
        compose_spec(flipped_spec(t), turns_spec(t)) == t,
{
}

/// A buffer turned exactly like its output is shown as it is, and a plain buffer takes the
/// output's transform.
pub proof fn matching_transforms_cancel(t: Transform)
    ensures
        apply_output_transform_spec(t, t) == Transform::Normal,
        apply_output_transform_spec(Transform::Normal, t) == t,
{
}

/// Going through an untransformed output inverts a transform, and inverting twice gives it back.
pub proof fn plain_output_inverts(t: Transform)
    ensures
        apply_output_transform_spec(t, Transform::Normal) == t.invert_spec(),
        t.invert_spec().invert_spec() == t,
{
}

/// A buffer stored bottom up mirrors its element, and doing so twice changes nothing; any other
/// storage leaves the transform alone.
pub proof fn storage_mirrors_only_bottom_up_buffers(t: Transform, storage: UnderlyingStorage)
    ensures
        storage.y_inverted_spec() ==> apply_underlying_storage_transform_spec(t, storage) != t,
        !storage.y_inverted_spec() ==> apply_underlying_storage_transform_spec(t, storage) == t,
        storage.y_inverted_spec() ==> apply_underlying_storage_transform_spec(
            apply_underlying_storage_transform_spec(t, storage),
            storage,
        ) == t,
{
}

/// A transformed rectangle that lies within its area lies within the transformed area.
pub proof fn transformed_rect_stays_inside(t: Transform, rect: Rectangle, area: Size)
    requires
        rect.regular(),
        area.non_negative(),
        Rectangle::from_size_spec(area).contains_spec(rect),
    ensures
        t.rect_fits(rect, area),
        Rectangle::from_size_spec(t.transform_size_spec(area)).contains_spec(
            t.transform_rect_spec(rect, area),
        ),
{
}

/// Without a transform the cursor plane sits at the element itself.
pub proof fn plain_cursor_sits_at_its_element(
    element_location: Point,
    cursor_plane_size: Size,
    output_geometry: Rectangle,
)
    ensures
        cursor_plane_location_fits(
            element_location,
            cursor_plane_size,
            output_geometry,
            Transform::Normal,
        ),
        cursor_plane_origin(
            element_location,
            cursor_plane_size,
            output_geometry,
            Transform::Normal,
        ) == element_location,
{
}

} // verus!
