//! What changed between two frames.
use vstd::prelude::*;

use crate::rect;
use crate::rect::Rect;

verus! {

/// The number of bytes of a `width` by `height` frame.
pub open spec fn frame_len(width: int, height: int) -> int {
    width * height * 4
}

/// The byte at which the pixel in column `x` and row `y` starts.
pub open spec fn pixel_offset(width: int, x: int, y: int) -> int {
    (y * width + x) * 4
}

/// The four bytes of the pixel in column `x` and row `y`.
pub open spec fn pixel_at(data: Seq<u8>, width: int, x: int, y: int) -> Seq<u8> {
    data.subrange(pixel_offset(width, x, y), pixel_offset(width, x, y) + 4)
}

/// Whether the pixel in column `x` and row `y` differs between two frames.
pub open spec fn pixel_changed(old: Seq<u8>, new: Seq<u8>, width: int, x: int, y: int) -> bool {
    pixel_at(old, width, x, y) != pixel_at(new, width, x, y)
}

/// Whether a pixel in column `x` differs.
pub open spec fn column_changed(
    old: Seq<u8>,
    new: Seq<u8>,
    width: int,
    height: int,
    x: int,
) -> bool {
    0 <= x < width && exists|y: int| 0 <= y < height && pixel_changed(old, new, width, x, y)
}

/// Whether a pixel in row `y` differs, of the first `height` rows.
pub open spec fn row_changed(old: Seq<u8>, new: Seq<u8>, width: int, height: int, y: int) -> bool {
    0 <= y < height && exists|x: int| 0 <= x < width && pixel_changed(old, new, width, x, y)
}

/// Whether no pixel of the first `height` rows differs.
pub open spec fn unchanged(old: Seq<u8>, new: Seq<u8>, width: int, height: int) -> bool {
    forall|x: int, y: int|
        0 <= x < width && 0 <= y < height ==> !pixel_changed(old, new, width, x, y)
}

/// Whether the columns `left` to `right` and the rows `top` to `bottom` bound
/// the pixels that differ, and do so tightly: every such pixel lies there, and
/// each of the four edges holds one.
pub open spec fn tight_bounds(
    old: Seq<u8>,
    new: Seq<u8>,
    width: int,
    height: int,
    left: int,
    top: int,
    right: int,
    bottom: int,
) -> bool {
    &&& forall|x: int, y: int|
        0 <= x < width && 0 <= y < height && #[trigger] pixel_changed(old, new, width, x, y)
            ==> left <= x <= right && top <= y <= bottom
    &&& column_changed(old, new, width, height, left)
    &&& column_changed(old, new, width, height, right)
    &&& row_changed(old, new, width, height, top)
    &&& row_changed(old, new, width, height, bottom)
}

/// The rectangle of a screen that a new frame damages: nothing where no pixel
/// differs or the screen has none, the whole screen where one of the frames is
/// not of the screen's size, and otherwise the bounding box of the pixels that
/// differ.
pub open spec fn damage_rect(old: Seq<u8>, new: Seq<u8>, width: int, height: int) -> Option<
    Rect,
> {
    if width == 0 || height == 0 {
        None
    } else if old.len() != new.len() || new.len() != frame_len(width, height) {
        Some(Rect::spec_full(width as u16, height as u16))
    } else if unchanged(old, new, width, height) {
        None
    } else {
        let (left, top, right, bottom) = choose|left: int, top: int, right: int, bottom: int|
            tight_bounds(old, new, width, height, left, top, right, bottom);
        Some(Rect::from_edges(left, top, right + 1, bottom + 1))
    }
}

/// A pixel of the screen lies inside a frame of the screen's size.
pub proof fn lemma_pixel_offset(width: int, height: int, x: int, y: int)
    requires
        0 <= x < width,
        0 <= y < height,
    ensures
        0 <= pixel_offset(width, x, y),
        pixel_offset(width, x, y) + 4 <= frame_len(width, height),
        pixel_offset(width, x, y) == pixel_offset(width, 0, y) + x * 4,
        pixel_offset(width, 0, y + 1) == pixel_offset(width, 0, y) + width * 4,
        0 <= pixel_offset(width, 0, y),
        pixel_offset(width, 0, y + 1) <= frame_len(width, height),
{
    assert((y + 1) * width <= width * height) by (nonlinear_arith)
        requires
            0 <= y < height,
            0 <= width,
    ;
    assert((y + 1) * width == y * width + width) by (nonlinear_arith);
    assert(0 <= y * width) by (nonlinear_arith)
        requires
            0 <= y,
            0 <= width,
    ;
}

/// Two boxes that bound the same pixels tightly are one.
proof fn lemma_tight_bounds_unique(
    old: Seq<u8>,
    new: Seq<u8>,
    width: int,
    height: int,
    a: (int, int, int, int),
    b: (int, int, int, int),
)
    requires
        tight_bounds(old, new, width, height, a.0, a.1, a.2, a.3),
        tight_bounds(old, new, width, height, b.0, b.1, b.2, b.3),
    ensures
        a == b,
{
}

/// The damage rectangle of two frames of the screen's size that differ is the
/// one box that bounds the pixels that differ tightly.
pub proof fn law_damage_is_bounding_box(
    old: Seq<u8>,
    new: Seq<u8>,
    width: int,
    height: int,
    left: int,
    top: int,
    right: int,
    bottom: int,
)
    requires
        width > 0,
        height > 0,
        old.len() == new.len() == frame_len(width, height),
        tight_bounds(old, new, width, height, left, top, right, bottom),
    ensures
        damage_rect(old, new, width, height) == Some(
            Rect::from_edges(left, top, right + 1, bottom + 1),
        ),
        damage_rect(old, new, width, height) == Some(
            Rect {
                x: left as u16,
                y: top as u16,
                width: (right - left + 1) as u16,
                height: (bottom - top + 1) as u16,
            },
        ),
{
    let (l, t, r, b) = choose|l: int, t: int, r: int, b: int|
        tight_bounds(old, new, width, height, l, t, r, b);
    lemma_tight_bounds_unique(old, new, width, height, (l, t, r, b), (left, top, right, bottom));
}

/// The bounds of the pixels that differ in the first `y` rows, widened to take
/// in the columns `first` to `last` of row `y`, bound those of one row more.
proof fn lemma_bounds_extend(
    old: Seq<u8>,
    new: Seq<u8>,
    width: int,
    y: int,
    some: bool,
    before: (int, int, int, int),
    first: int,
    last: int,
)
    requires
        0 <= y,
        if some {
            tight_bounds(old, new, width, y, before.0, before.1, before.2, before.3)
        } else {
            unchanged(old, new, width, y) && before.0 >= width && before.1 > y && before.2 <= 0
                && before.3 <= 0
        },
        0 <= first <= last < width,
        pixel_changed(old, new, width, first, y),
        pixel_changed(old, new, width, last, y),
        forall|x: int| 0 <= x < first ==> !pixel_changed(old, new, width, x, y),
        forall|x: int| last < x < width ==> !pixel_changed(old, new, width, x, y),
    ensures
        tight_bounds(
            old,
            new,
            width,
            y + 1,
            rect::least(first, before.0),
            rect::least(y, before.1),
            rect::greatest(last, before.2),
            rect::greatest(y, before.3),
        ),
{
    let (left, top, right, bottom) = before;
    assert(row_changed(old, new, width, y + 1, y));
    assert(column_changed(old, new, width, y + 1, first));
    assert(column_changed(old, new, width, y + 1, last));
    if some {
        assert(row_changed(old, new, width, y + 1, top));
        assert(column_changed(old, new, width, y + 1, left));
        assert(column_changed(old, new, width, y + 1, right));
    }
}

/// A row that differs has a first and a last column that differ.
proof fn lemma_row_ends(old: Seq<u8>, new: Seq<u8>, width: int, y: int, n: int) -> (ends: (
    int,
    int,
))
    requires
        0 <= n <= width,
        exists|x: int| 0 <= x < n && pixel_changed(old, new, width, x, y),
    ensures
        0 <= ends.0 <= ends.1 < n,
        pixel_changed(old, new, width, ends.0, y),
        pixel_changed(old, new, width, ends.1, y),
        forall|x: int| 0 <= x < ends.0 ==> !pixel_changed(old, new, width, x, y),
        forall|x: int| ends.1 < x < n ==> !pixel_changed(old, new, width, x, y),
    decreases n,
{
    let m = n - 1;
    if exists|x: int| 0 <= x < m && pixel_changed(old, new, width, x, y) {
        let ends = lemma_row_ends(old, new, width, y, m);
        if pixel_changed(old, new, width, m, y) {
            (ends.0, m)
        } else {
            ends
        }
    } else {
        (m, m)
    }
}

/// Pixels that differ have tight bounds.
proof fn lemma_bounds_exist(old: Seq<u8>, new: Seq<u8>, width: int, height: int) -> (b: (
    int,
    int,
    int,
    int,
))
    requires
        0 <= height,
        !unchanged(old, new, width, height),
    ensures
        tight_bounds(old, new, width, height, b.0, b.1, b.2, b.3),
    decreases height,
{
    assert(height > 0);
    let y = height - 1;
    let some = !unchanged(old, new, width, y);
    let before = if some {
        lemma_bounds_exist(old, new, width, y)
    } else {
        (width, height, 0, 0)
    };
    if exists|x: int| 0 <= x < width && pixel_changed(old, new, width, x, y) {
        let ends = lemma_row_ends(old, new, width, y, width);
        lemma_bounds_extend(old, new, width, y, some, before, ends.0, ends.1);
        (
            rect::least(ends.0, before.0),
            rect::least(y, before.1),
            rect::greatest(ends.1, before.2),
            rect::greatest(y, before.3),
        )
    } else {
        assert(some) by {
            if !some {
                let (x, k) = choose|x: int, k: int|
                    0 <= x < width && 0 <= k < height && pixel_changed(old, new, width, x, k);
                assert(0 <= k < y);
            }
        }
        assert(row_changed(old, new, width, height, before.1));
        assert(row_changed(old, new, width, height, before.3));
        assert(column_changed(old, new, width, height, before.0));
        assert(column_changed(old, new, width, height, before.2));
        before
    }
}

/// No change escapes the damage rectangle: where a frame of the screen's size
/// follows another, every pixel that differs lies in it.
pub proof fn law_damage_covers(
    old: Seq<u8>,
    new: Seq<u8>,
    width: u16,
    height: u16,
    x: int,
    y: int,
)
    requires
        0 <= x < width,
        0 <= y < height,
        old.len() == new.len() == frame_len(width as int, height as int) ==> pixel_changed(
            old,
            new,
            width as int,
            x,
            y,
        ),
    ensures
        damage_rect(old, new, width as int, height as int) matches Some(r) && r.contains(x, y),
{
    let w = width as int;
    let h = height as int;
    if old.len() == new.len() == frame_len(w, h) {
        let (l, t, r, b) = lemma_bounds_exist(old, new, w, h);
        law_damage_is_bounding_box(old, new, w, h, l, t, r, b);
    }
}

/// The damage rectangle holds no more than it must: it lies on the screen, it
/// is not empty, and for frames of the screen's size its first and last column
/// and its first and last row each hold a pixel that differs.
pub proof fn law_damage_is_tight(old: Seq<u8>, new: Seq<u8>, width: u16, height: u16)
    ensures
        damage_rect(old, new, width as int, height as int) matches Some(r) ==> {
            &&& !r.spec_is_empty()
            &&& r.within(width as int, height as int)
            &&& old.len() == new.len() == frame_len(width as int, height as int) ==> {
                &&& column_changed(old, new, width as int, height as int, r.x as int)
                &&& column_changed(old, new, width as int, height as int, r.x + r.width - 1)
                &&& row_changed(old, new, width as int, height as int, r.y as int)
                &&& row_changed(old, new, width as int, height as int, r.y + r.height - 1)
            }
        },
{
    let w = width as int;
    let h = height as int;
    if w > 0 && h > 0 && old.len() == new.len() == frame_len(w, h) && !unchanged(old, new, w, h) {
        let (l, t, r, b) = lemma_bounds_exist(old, new, w, h);
        law_damage_is_bounding_box(old, new, w, h, l, t, r, b);
    }
}

/// A frame that follows itself damages nothing.
pub proof fn law_no_damage_without_change(frame: Seq<u8>, width: int, height: int)
    requires
        frame.len() == frame_len(width, height),
    ensures
        damage_rect(frame, frame, width, height) is None,
{
}

/// Where the bytes of a pixel stand.
pub proof fn lemma_byte_of_pixel(width: int, x: int, y: int, k: int)
    requires
        0 <= x < width,
        0 <= y,
        0 <= k < 4,
    ensures
        ({
            let at = pixel_offset(width, x, y) + k;
            &&& at / 4 == y * width + x
            &&& at % 4 == k
            &&& (at / 4) % width == x
            &&& (at / 4) / width == y
        }),
{
    let at = pixel_offset(width, x, y) + k;
    assert(at / 4 == y * width + x);
    vstd::arithmetic::div_mod::lemma_fundamental_div_mod_converse(y * width + x, width, y, x);
}

/// The pixel that a byte belongs to.
pub proof fn lemma_pixel_of_byte(width: int, height: int, k: int)
    requires
        0 <= k < width * height * 4,
        0 <= width,
        0 <= height,
    ensures
        0 < width,
        0 <= (k / 4) % width < width,
        0 <= (k / 4) / width < height,
        pixel_offset(width, (k / 4) % width, (k / 4) / width) + k % 4 == k,
{
    let p = k / 4;
    assert(0 < width) by (nonlinear_arith)
        requires
            0 <= k < width * height * 4,
            0 <= width,
            0 <= height,
    ;
    vstd::arithmetic::div_mod::lemma_fundamental_div_mod(p, width);
    let q = p / width;
    let m = p % width;
    assert(p == q * width + m) by (nonlinear_arith)
        requires
            p == width * q + m,
    ;
    assert(0 <= m < width);
    assert(p < width * height);
    assert(0 <= q < height) by (nonlinear_arith)
        requires
            p == q * width + m,
            0 <= m < width,
            0 <= p < width * height,
    ;
}

/// No byte of a frame changes unnoticed: where two frames of the screen's size
/// differ in byte `k`, the damage rectangle holds the pixel that the byte is
/// part of, four bytes being a pixel and `width` pixels a row.
pub proof fn law_damage_covers_bytes(old: Seq<u8>, new: Seq<u8>, width: u16, height: u16, k: int)
    requires
        old.len() == new.len() == width * height * 4,
        0 <= k < old.len(),
        old[k] != new[k],
    ensures
        damage_rect(old, new, width as int, height as int) matches Some(r) && r.contains(
            (k / 4) % width as int,
            (k / 4) / width as int,
        ),
{
    let w = width as int;
    let x = (k / 4) % w;
    let y = (k / 4) / w;
    lemma_pixel_of_byte(w, height as int, k);
    lemma_pixel_offset(w, height as int, x, y);
    assert(pixel_at(old, w, x, y)[k % 4] == old[k]);
    assert(pixel_at(new, w, x, y)[k % 4] == new[k]);
    law_damage_covers(old, new, width, height, x, y);
}

/// Whether two frames of the same size differ in a byte of column `x`.
pub open spec fn column_differs(old: Seq<u8>, new: Seq<u8>, width: int, x: int) -> bool {
    exists|k: int| 0 <= k < old.len() && #[trigger] old[k] != new[k] && (k / 4) % width == x
}

/// Whether two frames of the same size differ in a byte of row `y`.
pub open spec fn row_differs(old: Seq<u8>, new: Seq<u8>, width: int, y: int) -> bool {
    exists|k: int| 0 <= k < old.len() && #[trigger] old[k] != new[k] && (k / 4) / width == y
}

/// A pixel that differs differs in a byte.
proof fn lemma_changed_byte(old: Seq<u8>, new: Seq<u8>, width: int, height: int, x: int, y: int)
    requires
        old.len() == new.len() == frame_len(width, height),
        0 <= x < width,
        0 <= y < height,
        pixel_changed(old, new, width, x, y),
    ensures
        column_differs(old, new, width, x),
        row_differs(old, new, width, y),
        exists|k: int|
            0 <= k < old.len() && #[trigger] old[k] != new[k] && (k / 4) % width == x && (k / 4)
                / width == y,
{
    lemma_pixel_offset(width, height, x, y);
    let a = pixel_at(old, width, x, y);
    let b = pixel_at(new, width, x, y);
    let i = choose|i: int| 0 <= i < 4 && a[i] != b[i];
    assert(0 <= i < 4 && a[i] != b[i]) by {
        if forall|i: int| 0 <= i < 4 ==> a[i] == b[i] {
            assert(a =~= b);
        }
    }
    lemma_byte_of_pixel(width, x, y, i);
    let k = pixel_offset(width, x, y) + i;
    assert(old[k] != new[k]);
}

/// Damage is reported exactly where something changed: for frames of the
/// screen's size there is none exactly if the frames are the same, and each of
/// the four edges of the damage rectangle holds a byte that differs.
pub proof fn law_damage_is_change(old: Seq<u8>, new: Seq<u8>, width: u16, height: u16)
    requires
        old.len() == new.len() == width * height * 4,
    ensures
        damage_rect(old, new, width as int, height as int) is None <==> old == new,
        damage_rect(old, new, width as int, height as int) matches Some(r) ==> {
            &&& r.width > 0 && r.height > 0
            &&& r.x + r.width <= width && r.y + r.height <= height
            &&& column_differs(old, new, width as int, r.x as int)
            &&& column_differs(old, new, width as int, r.x + r.width - 1)
            &&& row_differs(old, new, width as int, r.y as int)
            &&& row_differs(old, new, width as int, r.y + r.height - 1)
        },
{
    let w = width as int;
    let h = height as int;
    law_damage_is_tight(old, new, width, height);
    if old != new {
        assert(exists|k: int| 0 <= k < old.len() && #[trigger] old[k] != new[k]) by {
            if forall|k: int| 0 <= k < old.len() ==> #[trigger] old[k] == new[k] {
                assert(old =~= new);
            }
        }
        let k = choose|k: int| 0 <= k < old.len() && #[trigger] old[k] != new[k];
        law_damage_covers_bytes(old, new, width, height, k);
    }
    if let Some(r) = damage_rect(old, new, w, h) {
        let left = r.x as int;
        let right = r.x + r.width - 1;
        let top = r.y as int;
        let bottom = r.y + r.height - 1;
        let y0 = choose|y: int| 0 <= y < h && pixel_changed(old, new, w, left, y);
        lemma_changed_byte(old, new, w, h, left, y0);
        let y1 = choose|y: int| 0 <= y < h && pixel_changed(old, new, w, right, y);
        lemma_changed_byte(old, new, w, h, right, y1);
        let x0 = choose|x: int| 0 <= x < w && pixel_changed(old, new, w, x, top);
        lemma_changed_byte(old, new, w, h, x0, top);
        let x1 = choose|x: int| 0 <= x < w && pixel_changed(old, new, w, x, bottom);
        lemma_changed_byte(old, new, w, h, x1, bottom);
    }
}

/// A byte that differs is part of a pixel that does.
proof fn lemma_changed_pixel(old: Seq<u8>, new: Seq<u8>, width: int, height: int, k: int)
    requires
        0 < width,
        0 < height,
        old.len() == new.len() == width * height * 4,
        0 <= k < old.len(),
        old[k] != new[k],
    ensures
        0 <= (k / 4) % width < width,
        0 <= (k / 4) / width < height,
        pixel_changed(old, new, width, (k / 4) % width, (k / 4) / width),
{
    let x = (k / 4) % width;
    let y = (k / 4) / width;
    lemma_pixel_of_byte(width, height, k);
    lemma_pixel_offset(width, height, x, y);
    assert(pixel_at(old, width, x, y)[k % 4] == old[k]);
    assert(pixel_at(new, width, x, y)[k % 4] == new[k]);
}

/// The damage rectangle of a screen of any size, by the bytes of the frames:
/// where every byte that differs lies in the columns `left` to `right` and in the
/// rows `top` to `bottom`, and each of these four holds one, they are its first and
/// its last column and its first and its last row.
pub proof fn law_damage_by_bytes(
    old: Seq<u8>,
    new: Seq<u8>,
    width: int,
    height: int,
    left: int,
    top: int,
    right: int,
    bottom: int,
)
    requires
        width > 0,
        height > 0,
        old.len() == new.len() == width * height * 4,
        forall|k: int|
            0 <= k < old.len() && #[trigger] old[k] != new[k] ==> left <= (k / 4) % width <= right
                && top <= (k / 4) / width <= bottom,
        column_differs(old, new, width, left),
        column_differs(old, new, width, right),
        row_differs(old, new, width, top),
        row_differs(old, new, width, bottom),
    ensures
        damage_rect(old, new, width, height) == Some(
            Rect {
                x: left as u16,
                y: top as u16,
                width: (right - left + 1) as u16,
                height: (bottom - top + 1) as u16,
            },
        ),
{
    assert forall|x: int, y: int|
        0 <= x < width && 0 <= y < height && #[trigger] pixel_changed(
            old,
            new,
            width,
            x,
            y,
        ) implies left <= x <= right && top <= y <= bottom by {
        lemma_changed_byte(old, new, width, height, x, y);
        let k = choose|k: int|
            0 <= k < old.len() && #[trigger] old[k] != new[k] && (k / 4) % width == x && (k / 4)
                / width == y;
        assert(old[k] != new[k]);
    }
    let k = choose|k: int|
        0 <= k < old.len() && #[trigger] old[k] != new[k] && (k / 4) % width == left;
    lemma_changed_pixel(old, new, width, height, k);
    assert(column_changed(old, new, width, height, left));
    let k = choose|k: int|
        0 <= k < old.len() && #[trigger] old[k] != new[k] && (k / 4) % width == right;
    lemma_changed_pixel(old, new, width, height, k);
    assert(column_changed(old, new, width, height, right));
    let k = choose|k: int|
        0 <= k < old.len() && #[trigger] old[k] != new[k] && (k / 4) / width == top;
    lemma_changed_pixel(old, new, width, height, k);
    assert(row_changed(old, new, width, height, top));
    let k = choose|k: int|
        0 <= k < old.len() && #[trigger] old[k] != new[k] && (k / 4) / width == bottom;
    lemma_changed_pixel(old, new, width, height, k);
    assert(row_changed(old, new, width, height, bottom));
    law_damage_is_bounding_box(old, new, width, height, left, top, right, bottom);
}

/// A frame that is not of the screen's size damages all of the screen, and a
/// screen without pixels is never damaged.
pub proof fn law_odd_sizes(old: Seq<u8>, new: Seq<u8>, width: int, height: int)
    ensures
        width == 0 || height == 0 ==> damage_rect(old, new, width, height) is None,
        width != 0 && height != 0 && (old.len() != new.len() || new.len() != width * height * 4)
            ==> damage_rect(old, new, width, height) == Some(
            Rect { x: 0, y: 0, width: width as u16, height: height as u16 },
        ),
{
}

/// Whether the four bytes from `i` on differ between two frames.
fn pixel_differs(old: &[u8], new: &[u8], i: usize) -> (r: bool)
    requires
        i + 4 <= old@.len(),
        i + 4 <= new@.len(),
    ensures
        r == (old@.subrange(i as int, i + 4) != new@.subrange(i as int, i + 4)),
{
    let ghost a = old@.subrange(i as int, i + 4);
    let ghost b = new@.subrange(i as int, i + 4);
    assert(a[0] == old@[i as int] && a[1] == old@[i + 1] && a[2] == old@[i + 2] && a[3] == old@[i
        + 3]);
    assert(b[0] == new@[i as int] && b[1] == new@[i + 1] && b[2] == new@[i + 2] && b[3] == new@[i
        + 3]);
    if old[i] == new[i] && old[i + 1] == new[i + 1] && old[i + 2] == new[i + 2] && old[i + 3]
        == new[i + 3] {
        assert(a =~= b);
        false
    } else {
        true
    }
}

/// The first column of row `y` that differs, or `width` where none does.
fn first_changed(
    old: &[u8],
    new: &[u8],
    width: usize,
    Ghost(height): Ghost<int>,
    y: usize,
) -> (r: usize)
    requires
        y < height,
        old@.len() == frame_len(width as int, height),
        new@.len() == frame_len(width as int, height),
    ensures
        r <= width,
        r < width ==> pixel_changed(old@, new@, width as int, r as int, y as int),
        forall|x: int| 0 <= x < r ==> !pixel_changed(old@, new@, width as int, x, y as int),
{
    let mut x: usize = 0;
    while x < width
        invariant
            x <= width,
            y < height,
            old@.len() == frame_len(width as int, height),
            new@.len() == frame_len(width as int, height),
            forall|i: int| 0 <= i < x ==> !pixel_changed(old@, new@, width as int, i, y as int),
        decreases width - x,
    {
        proof {
            lemma_pixel_offset(width as int, height, x as int, y as int);
            assert(old.len() == old@.len());
        }
        let i: usize = (y * width + x) * 4;
        if pixel_differs(old, new, i) {
            return x;
        }
        x = x + 1;
    }
    x
}

/// The last column of row `y` that differs, where column `first` does.
fn last_changed(
    old: &[u8],
    new: &[u8],
    width: usize,
    Ghost(height): Ghost<int>,
    y: usize,
    first: usize,
) -> (r: usize)
    requires
        y < height,
        old@.len() == frame_len(width as int, height),
        new@.len() == frame_len(width as int, height),
        first < width,
        pixel_changed(old@, new@, width as int, first as int, y as int),
    ensures
        first <= r < width,
        pixel_changed(old@, new@, width as int, r as int, y as int),
        forall|x: int| r < x < width ==> !pixel_changed(old@, new@, width as int, x, y as int),
{
    let mut x: usize = width - 1;
    while x > first
        invariant
            first <= x < width,
            y < height,
            old@.len() == frame_len(width as int, height),
            new@.len() == frame_len(width as int, height),
            pixel_changed(old@, new@, width as int, first as int, y as int),
            forall|i: int| x < i < width ==> !pixel_changed(old@, new@, width as int, i, y as int),
        decreases x,
    {
        proof {
            lemma_pixel_offset(width as int, height, x as int, y as int);
            assert(old.len() == old@.len());
        }
        let i: usize = (y * width + x) * 4;
        if pixel_differs(old, new, i) {
            return x;
        }
        x = x - 1;
    }
    x
}

/// The rectangle of a `width` by `height` screen that differs between two
/// frames. The coordinates of the result keep the low sixteen bits.
pub fn compute_damage_rect(old: &[u8], new: &[u8], width: usize, height: usize) -> (r: Option<Rect>)
    requires
        width != 0 && height != 0 && old@.len() == new@.len() ==> frame_len(
            width as int,
            height as int,
        ) <= usize::MAX,
    ensures
        r == damage_rect(old@, new@, width as int, height as int),
{
    if width == 0 || height == 0 {
        return None;
    }
    if old.len() != new.len() {
        return Some(Rect::full(width as u16, height as u16));
    }
    let ghost w = width as int;
    let ghost h = height as int;
    assert(width * height <= frame_len(w, h)) by (nonlinear_arith)
        requires
            w == width,
            h == height,
            frame_len(w, h) == w * h * 4,
    ;
    if new.len() != width * height * 4 {
        return Some(Rect::full(width as u16, height as u16));
    }
    let mut min_x: usize = width;
    let mut min_y: usize = height;
    let mut max_x: usize = 0;
    let mut max_y: usize = 0;
    let mut changed: bool = false;
    let mut y: usize = 0;
    while y < height
        invariant
            y <= height,
            w == width,
            h == height,
            w > 0,
            old@.len() == frame_len(w, h),
            new@.len() == frame_len(w, h),
            !changed ==> min_x == width && min_y == height && max_x == 0 && max_y == 0,
            !changed ==> unchanged(old@, new@, w, y as int),
            changed ==> tight_bounds(
                old@,
                new@,
                w,
                y as int,
                min_x as int,
                min_y as int,
                max_x as int,
                max_y as int,
            ),
        decreases height - y,
    {
        let row_min: usize = first_changed(old, new, width, Ghost(h), y);
        if row_min < width {
            let row_max: usize = last_changed(old, new, width, Ghost(h), y, row_min);
            let ghost before = (min_x as int, min_y as int, max_x as int, max_y as int);
            if row_min < min_x {
                min_x = row_min;
            }
            if y < min_y {
                min_y = y;
            }
            if row_max > max_x {
                max_x = row_max;
            }
            if y > max_y {
                max_y = y;
            }
            proof {
                lemma_bounds_extend(
                    old@,
                    new@,
                    w,
                    y as int,
                    changed,
                    before,
                    row_min as int,
                    row_max as int,
                );
            }
            changed = true;
        }
        y = y + 1;
    }
    if changed {
        proof {
            law_damage_is_bounding_box(
                old@,
                new@,
                w,
                h,
                min_x as int,
                min_y as int,
                max_x as int,
                max_y as int,
            );
        }
        Some(
            Rect {
                x: min_x as u16,
                y: min_y as u16,
                width: (max_x - min_x + 1) as u16,
                height: (max_y - min_y + 1) as u16,
            },
        )
    } else {
        None
    }
}

} // verus!
