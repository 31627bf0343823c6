//! The greedy mesher: turns a page of the map into at most one quad per face
//! of the page's occupied box, clipped against partial neighbours.
use vstd::prelude::*;

use crate::bbox::{
    corner_cube, corner_set, holds, lemma_mask_box_is_union_of_corner_cubes, lemma_mask_box_small,
    mask_box, BoundingBox,
};
use crate::face::{extent_of, FaceExtent};
use crate::page::{
    bit_of, lemma_page_at_index_inside, lemma_page_summary_meaning, lemma_page_summary_rows_meaning,
    lemma_solid_voxel_in_summary, page_at_index, page_summary,
    solid, summarize_page, Array3D2P, OctreeBoxEntry, PageSummary, MAX_MAP_SIZE,
};
use crate::types::UVec3;

verus! {

/// Face and direction bits: face `f` is direction bit `1 << f`.
pub const NONE: u8 = 0;

/// Towards negative x.
pub const LEFT: u8 = 1;

/// Towards positive x.
pub const RIGHT: u8 = 2;

/// Towards negative y.
pub const DOWN: u8 = 4;

/// Towards positive y.
pub const UP: u8 = 8;

/// Towards negative z.
pub const BACK: u8 = 16;

/// Towards positive z.
pub const FRONT: u8 = 32;

/// Whether the direction set `dirs` holds face `f`.
pub open spec fn has_face(dirs: u8, f: int) -> bool {
    (dirs >> (f as u8)) & 1u8 == 1u8
}

fn face_bit(dirs: u8, f: usize) -> (r: bool)
    requires
        f < 6,
    ensures
        r == has_face(dirs, f as int),
{
    (dirs >> (f as u8)) & 1u8 == 1u8
}

/// A rectangle `(u0, v0, u1, v1)` on a page face.
pub type Rect = (int, int, int, int);

/// The lowest bit set in `m` at or above `i`, or 8 when there is none.
pub open spec fn low_bit(m: u8, i: nat) -> nat
    decreases 8 - i,
{
    if i >= 8 {
        8
    } else if (m >> (i as u8)) & 1u8 == 1u8 {
        i
    } else {
        low_bit(m, i + 1)
    }
}

/// One past the highest bit set in `m` below `i`, or 0 when there is none.
pub open spec fn high_end(m: u8, i: nat) -> nat
    decreases i,
{
    if i == 0 {
        0
    } else if (m >> ((i - 1) as u8)) & 1u8 == 1u8 {
        i
    } else {
        high_end(m, (i - 1) as nat)
    }
}

fn lowest_bit(m: u8) -> (r: u8)
    ensures
        r == low_bit(m, 0),
        r <= 8,
{
    let mut k: u8 = 0;
    while k < 8 && (m >> k) & 1u8 != 1u8
        invariant
            k <= 8,
            low_bit(m, 0) == low_bit(m, k as nat),
        decreases 8 - k,
    {
        k = k + 1;
    }
    k
}

fn highest_end(m: u8) -> (r: u8)
    ensures
        r == high_end(m, 8),
        r <= 8,
{
    let mut k: u8 = 8;
    while k > 0 && (m >> (k - 1)) & 1u8 != 1u8
        invariant
            k <= 8,
            high_end(m, 8) == high_end(m, k as nat),
        decreases k,
    {
        k = k - 1;
    }
    k
}

/// The smallest box holding every solid voxel of a page, from its axis masks.
pub open spec fn tight_box(s: PageSummary) -> BoundingBox {
    BoundingBox {
        x: low_bit(s.xmask, 0) as u8,
        y: low_bit(s.ymask, 0) as u8,
        z: low_bit(s.zmask, 0) as u8,
        u: high_end(s.xmask, 8) as u8,
        v: high_end(s.ymask, 8) as u8,
        w: high_end(s.zmask, 8) as u8,
    }
}

/// A box of the 2x2x2 corner grid stretched over an 8x8x8 page.
pub open spec fn scaled_box(b: BoundingBox) -> BoundingBox {
    BoundingBox {
        x: (b.x * 4) as u8,
        y: (b.y * 4) as u8,
        z: (b.z * 4) as u8,
        u: (b.u * 4) as u8,
        v: (b.v * 4) as u8,
        w: (b.w * 4) as u8,
    }
}

/// The occupied box of a page: the table's coarse box for its octant mask,
/// refined against the page's axis masks.
pub open spec fn page_box(s: PageSummary) -> BoundingBox {
    scaled_box(mask_box(s.occupied)).spec_intersection(tight_box(s))
}

/// The table holds, for each octant mask, the box of its set corners.
pub open spec fn is_mask_table(table: Seq<BoundingBox>) -> bool {
    table.len() == 256 && forall|m: int| 0 <= m < 256 ==> #[trigger] table[m] == mask_box(m as u8)
}

fn compute_page_box(s: &PageSummary, table: &Vec<BoundingBox>) -> (r: BoundingBox)
    requires
        is_mask_table(table@),
    ensures
        r == page_box(*s),
        r.u <= 8 && r.v <= 8 && r.w <= 8,
{
    let c = table[s.occupied as usize];
    proof {
        lemma_mask_box_small(s.occupied);
    }
    let coarse = BoundingBox {
        x: c.x * 4,
        y: c.y * 4,
        z: c.z * 4,
        u: c.u * 4,
        v: c.v * 4,
        w: c.w * 4,
    };
    let tight = BoundingBox {
        x: lowest_bit(s.xmask),
        y: lowest_bit(s.ymask),
        z: lowest_bit(s.zmask),
        u: highest_end(s.xmask),
        v: highest_end(s.ymask),
        w: highest_end(s.zmask),
    };
    coarse.intersection(tight)
}

/// The coordinate of face `f` of box `b` along the face's axis.
pub open spec fn face_coord(b: BoundingBox, f: int) -> int {
    if f == 0 {
        b.x as int
    } else if f == 1 {
        b.u as int
    } else if f == 2 {
        b.y as int
    } else if f == 3 {
        b.v as int
    } else if f == 4 {
        b.z as int
    } else {
        b.w as int
    }
}

/// The rectangle face `f` of box `b` covers, over the two other axes in order.
pub open spec fn face_rect(b: BoundingBox, f: int) -> Rect {
    if f / 2 == 0 {
        (b.y as int, b.z as int, b.v as int, b.w as int)
    } else if f / 2 == 1 {
        (b.x as int, b.z as int, b.u as int, b.w as int)
    } else {
        (b.x as int, b.y as int, b.u as int, b.v as int)
    }
}

/// Face `f` of box `b` lies on the page's own boundary.
pub open spec fn on_boundary(b: BoundingBox, f: int) -> bool {
    if f % 2 == 0 {
        face_coord(b, f) == 0
    } else {
        face_coord(b, f) == 8
    }
}

/// The overlap of two rectangles, if they overlap.
pub open spec fn rect_meet(a: Rect, b: Rect) -> Option<Rect> {
    let u0 = if a.0 >= b.0 { a.0 } else { b.0 };
    let v0 = if a.1 >= b.1 { a.1 } else { b.1 };
    let u1 = if a.2 <= b.2 { a.2 } else { b.2 };
    let v1 = if a.3 <= b.3 { a.3 } else { b.3 };
    if u0 < u1 && v0 < v1 {
        Some((u0, v0, u1, v1))
    } else {
        None
    }
}

/// The `k`-th of the four octants that touch face `g` of a page: bit `g / 2` of
/// the octant is `g % 2`, the two other bits are those of `k` in axis order.
pub open spec fn face_octant(g: int, k: int) -> u8 {
    let s = g % 2;
    let k0 = k % 2;
    let k1 = k / 2;
    if g / 2 == 0 {
        (s + 2 * k0 + 4 * k1) as u8
    } else if g / 2 == 1 {
        (k0 + 2 * s + 4 * k1) as u8
    } else {
        (k0 + 2 * k1 + 4 * s) as u8
    }
}

/// The quarter of a face that the `k`-th octant of `face_octant` covers.
pub open spec fn quadrant(k: int) -> Rect {
    (4 * (k % 2), 4 * (k / 2), 4 * (k % 2) + 4, 4 * (k / 2) + 4)
}

/// Bit `c` of an octant mask.
pub open spec fn octant_bit(mask: u8, c: u8) -> bool {
    (mask >> c) & 1u8 == 1u8
}

/// The part of `cand` in quarter `k` of face `g`, when that quarter is open (its
/// octant is not full in `full`) and `cand` meets it.
pub open spec fn open_piece(cand: Rect, full: u8, g: int, k: int) -> Option<Rect> {
    if octant_bit(full, face_octant(g, k)) {
        None
    } else {
        rect_meet(cand, quadrant(k))
    }
}

/// The pieces of one row of quarters, left then right, joined into one
/// rectangle when they touch.
pub open spec fn join_row(a: Option<Rect>, b: Option<Rect>) -> Seq<Rect> {
    match a {
        Some(x) => match b {
            Some(y) => if x.2 == y.0 && x.1 == y.1 && x.3 == y.3 {
                seq![(x.0, x.1, y.2, x.3)]
            } else {
                seq![x, y]
            },
            None => seq![x],
        },
        None => match b {
            Some(y) => seq![y],
            None => seq![],
        },
    }
}

/// The two rows of pieces, joined into one rectangle when each is a single
/// rectangle and they line up one above the other.
pub open spec fn join_rows(r0: Seq<Rect>, r1: Seq<Rect>) -> Seq<Rect> {
    if r0.len() == 1 && r1.len() == 1 && r0[0].0 == r1[0].0 && r0[0].2 == r1[0].2 && r0[0].3
        == r1[0].1 {
        seq![(r0[0].0, r0[0].1, r0[0].2, r1[0].3)]
    } else {
        r0 + r1
    }
}

/// What of `cand` shows through the openings a neighbour whose full-octant mask
/// is `full` leaves on its face `g`: `cand` met with the union of the open
/// quarters, as few rectangles as the quarters allow.
pub open spec fn visible_part(cand: Rect, full: u8, g: int) -> Seq<Rect> {
    join_rows(
        join_row(open_piece(cand, full, g, 0), open_piece(cand, full, g, 1)),
        join_row(open_piece(cand, full, g, 2), open_piece(cand, full, g, 3)),
    )
}

/// The face extents of a list of rectangles.
pub open spec fn extents_of(rs: Seq<Rect>) -> Seq<FaceExtent> {
    Seq::new(rs.len(), |i: int| extent_of(rs[i].0, rs[i].1, rs[i].2, rs[i].3))
}

/// The rectangle is non-empty and lies within a page face.
pub open spec fn rect_in_page(r: Rect) -> bool {
    0 <= r.0 < r.2 <= 8 && 0 <= r.1 < r.3 <= 8
}

/// Cell `(a, b)` of a face lies in the rectangle.
pub open spec fn rect_has(r: Rect, a: int, b: int) -> bool {
    r.0 <= a < r.2 && r.1 <= b < r.3
}

/// The extents face `f` of a page with occupied box `b` shows: an interior
/// face, or a face whose neighbour is not partial, shows whole when requested;
/// a boundary face whose neighbour is partial shows where it meets the
/// neighbour's openings. `neighbour_full` is the full-octant mask of the
/// neighbour across face `f`.
pub open spec fn face_result(
    b: BoundingBox,
    f: int,
    faces: u8,
    partials: u8,
    neighbour_full: Option<u8>,
) -> Seq<FaceExtent> {
    let cand = face_rect(b, f);
    if on_boundary(b, f) && has_face(partials, f) && neighbour_full is Some {
        extents_of(visible_part(cand, neighbour_full.unwrap(), f + 1 - 2 * (f % 2)))
    } else if has_face(faces, f) {
        seq![extent_of(cand.0, cand.1, cand.2, cand.3)]
    } else {
        seq![]
    }
}

/// Every extent of the list has its corner inside the page face.
pub open spec fn extents_in_page(es: Seq<FaceExtent>) -> bool {
    forall|i: int| 0 <= i < es.len() ==> (#[trigger] es[i]).x < 8 && es[i].y < 8
}

/// The rectangle an exec tuple stands for.
pub open spec fn rect_of(t: (u8, u8, u8, u8)) -> Rect {
    (t.0 as int, t.1 as int, t.2 as int, t.3 as int)
}

fn face_octant_code(g: usize, k: u8) -> (r: u8)
    requires
        g < 6,
        k < 4,
    ensures
        r == face_octant(g as int, k as int),
        r < 8,
{
    let s = (g % 2) as u8;
    let k0 = k % 2;
    let k1 = k / 2;
    if g / 2 == 0 {
        s + 2 * k0 + 4 * k1
    } else if g / 2 == 1 {
        k0 + 2 * s + 4 * k1
    } else {
        k0 + 2 * k1 + 4 * s
    }
}

/// The part of `cand` in quarter `k` of face `face`, when that quarter is open.
fn piece(cand: (u8, u8, u8, u8), full: u8, face: usize, k: u8) -> (r: Option<(u8, u8, u8, u8)>)
    requires
        face < 6,
        k < 4,
        rect_in_page(rect_of(cand)),
    ensures
        r matches Some(t) ==> open_piece(rect_of(cand), full, face as int, k as int) == Some(
            rect_of(t),
        ) && rect_in_page(rect_of(t)),
        r is None ==> open_piece(rect_of(cand), full, face as int, k as int) is None,
{
    let c = face_octant_code(face, k);
    if (full >> c) & 1u8 == 1u8 {
        return None;
    }
    let q: (u8, u8, u8, u8) = (4 * (k % 2), 4 * (k / 2), 4 * (k % 2) + 4, 4 * (k / 2) + 4);
    assert(rect_of(q) == quadrant(k as int));
    let u0 = if cand.0 >= q.0 { cand.0 } else { q.0 };
    let v0 = if cand.1 >= q.1 { cand.1 } else { q.1 };
    let u1 = if cand.2 <= q.2 { cand.2 } else { q.2 };
    let v1 = if cand.3 <= q.3 { cand.3 } else { q.3 };
    if u0 < u1 && v0 < v1 {
        Some((u0, v0, u1, v1))
    } else {
        None
    }
}

/// The exec rectangles stand for the spec rectangles, one for one.
pub open spec fn rects_are(ts: Seq<(u8, u8, u8, u8)>, rs: Seq<Rect>) -> bool {
    &&& ts.len() == rs.len()
    &&& forall|i: int| 0 <= i < ts.len() ==> rect_of(#[trigger] ts[i]) == rs[i] && rect_in_page(rs[i])
}

fn join_row_exec(a: Option<(u8, u8, u8, u8)>, b: Option<(u8, u8, u8, u8)>) -> (r: Vec<
    (u8, u8, u8, u8),
>)
    requires
        a matches Some(x) ==> rect_in_page(rect_of(x)),
        b matches Some(y) ==> rect_in_page(rect_of(y)),
    ensures
        rects_are(
            r@,
            join_row(
                match a {
                    Some(x) => Some(rect_of(x)),
                    None => None,
                },
                match b {
                    Some(y) => Some(rect_of(y)),
                    None => None,
                },
            ),
        ),
{
    let mut r: Vec<(u8, u8, u8, u8)> = Vec::new();
    match a {
        Some(x) => match b {
            Some(y) => if x.2 == y.0 && x.1 == y.1 && x.3 == y.3 {
                r.push((x.0, x.1, y.2, x.3));
            } else {
                r.push(x);
                r.push(y);
            },
            None => {
                r.push(x);
            },
        },
        None => match b {
            Some(y) => {
                r.push(y);
            },
            None => {},
        },
    }
    r
}

/// The part of the constraint `cand` that shows through the openings a
/// neighbour whose full-octant mask is `full` leaves on its face `face`: the
/// open quarters are merged before they are met with `cand`, so a constraint
/// that lies within the openings comes back whole.
pub fn scan_branch_for_transparency(full: u8, face: usize, cand: (u8, u8, u8, u8)) -> (r: Vec<
    FaceExtent,
>)
    requires
        face < 6,
        rect_in_page(rect_of(cand)),
    ensures
        r@ == extents_of(visible_part(rect_of(cand), full, face as int)),
        extents_in_page(r@),
{
    let row0 = join_row_exec(piece(cand, full, face, 0), piece(cand, full, face, 1));
    let row1 = join_row_exec(piece(cand, full, face, 2), piece(cand, full, face, 3));
    let ghost rs = visible_part(rect_of(cand), full, face as int);
    let mut rects: Vec<(u8, u8, u8, u8)> = Vec::new();
    if row0.len() == 1 && row1.len() == 1 && row0[0].0 == row1[0].0 && row0[0].2 == row1[0].2
        && row0[0].3 == row1[0].1 {
        rects.push((row0[0].0, row0[0].1, row0[0].2, row1[0].3));
    } else {
        let mut i: usize = 0;
        while i < row0.len()
            invariant
                i <= row0@.len(),
                rects@ == row0@.subrange(0, i as int),
            decreases row0@.len() - i,
        {
            rects.push(row0[i]);
            i = i + 1;
            assert(row0@.subrange(0, i as int) =~= row0@.subrange(0, i - 1).push(row0@[i - 1]));
        }
        let mut j: usize = 0;
        while j < row1.len()
            invariant
                j <= row1@.len(),
                rects@ == row0@ + row1@.subrange(0, j as int),
            decreases row1@.len() - j,
        {
            rects.push(row1[j]);
            j = j + 1;
            assert(row1@.subrange(0, j as int) =~= row1@.subrange(0, j - 1).push(row1@[j - 1]));
        }
        assert(row0@.subrange(0, row0@.len() as int) =~= row0@);
        assert(row1@.subrange(0, row1@.len() as int) =~= row1@);
    }
    assert(rects_are(rects@, rs));
    let mut out: Vec<FaceExtent> = Vec::new();
    let mut k: usize = 0;
    while k < rects.len()
        invariant
            k <= rects@.len(),
            rects_are(rects@, rs),
            out@ == extents_of(rs).subrange(0, k as int),
            extents_in_page(out@),
        decreases rects@.len() - k,
    {
        let t = rects[k];
        assert(rect_in_page(rect_of(t)));
        out.push(FaceExtent::new_with_points(t.0, t.1, t.2, t.3));
        k = k + 1;
        assert(extents_of(rs).subrange(0, k as int) =~= extents_of(rs).subrange(0, k - 1).push(
            extents_of(rs)[k - 1],
        ));
    }
    assert(extents_of(rs).subrange(0, rects@.len() as int) =~= extents_of(rs));
    out
}

/// What of the candidate face `cand` shows against a partial neighbour whose
/// full-octant mask is `full`, looking at the neighbour's face `face`.
fn get_incoming_partial_extent(face: usize, cand: (u8, u8, u8, u8), full: u8) -> (r: Vec<
    FaceExtent,
>)
    requires
        face < 6,
        rect_in_page(rect_of(cand)),
    ensures
        r@ == extents_of(visible_part(rect_of(cand), full, face as int)),
        extents_in_page(r@),
{
    scan_branch_for_transparency(full, face, cand)
}

/// The page's box is non-empty and lies within the page.
pub open spec fn box_in_page(b: BoundingBox) -> bool {
    b.x < b.u <= 8 && b.y < b.v <= 8 && b.z < b.w <= 8
}

fn face_rect_of(b: &BoundingBox, f: usize) -> (r: (u8, u8, u8, u8))
    requires
        f < 6,
    ensures
        rect_of(r) == face_rect(*b, f as int),
{
    if f / 2 == 0 {
        (b.y, b.z, b.v, b.w)
    } else if f / 2 == 1 {
        (b.x, b.z, b.u, b.w)
    } else {
        (b.x, b.y, b.u, b.v)
    }
}

fn face_coord_of(b: &BoundingBox, f: usize) -> (r: u8)
    requires
        f < 6,
    ensures
        r == face_coord(*b, f as int),
{
    if f == 0 {
        b.x
    } else if f == 1 {
        b.u
    } else if f == 2 {
        b.y
    } else if f == 3 {
        b.v
    } else if f == 4 {
        b.z
    } else {
        b.w
    }
}

/// The extents each of the six faces of the page's box shows, given the
/// full-octant masks of the neighbours across each face (`None` where there is
/// no neighbour page).
pub fn clip_face_extents(
    aabb: &BoundingBox,
    faces: u8,
    partials: u8,
    neighbours: &Vec<Option<u8>>,
) -> (r: Vec<Vec<FaceExtent>>)
    requires
        box_in_page(*aabb),
        neighbours@.len() == 6,
    ensures
        r@.len() == 6,
        forall|f: int|
            0 <= f < 6 ==> (#[trigger] r@[f])@ == face_result(
                *aabb,
                f,
                faces,
                partials,
                neighbours@[f],
            ) && extents_in_page(r@[f]@),
{
    let mut extents: Vec<Vec<FaceExtent>> = Vec::with_capacity(6);
    let mut f: usize = 0;
    while f < 6
        invariant
            f <= 6,
            box_in_page(*aabb),
            neighbours@.len() == 6,
            extents@.len() == f,
            forall|i: int|
                0 <= i < f ==> (#[trigger] extents@[i])@ == face_result(
                    *aabb,
                    i,
                    faces,
                    partials,
                    neighbours@[i],
                ) && extents_in_page(extents@[i]@),
        decreases 6 - f,
    {
        let cand = face_rect_of(aabb, f);
        let coord = face_coord_of(aabb, f);
        let boundary = if f % 2 == 0 {
            coord == 0
        } else {
            coord == 8
        };
        let e = match neighbours[f] {
            Some(full) if boundary && face_bit(partials, f) => {
                let g = f + 1 - 2 * (f % 2);
                get_incoming_partial_extent(g, cand, full)
            },
            _ => if face_bit(faces, f) {
                let mut one: Vec<FaceExtent> = Vec::new();
                one.push(FaceExtent::new_with_points(cand.0, cand.1, cand.2, cand.3));
                proof {
                    assert(one@ =~= seq![extent_of(cand.0 as int, cand.1 as int, cand.2 as int, cand.3 as int)]);
                }
                one
            } else {
                Vec::new()
            },
        };
        proof {
            assert(e@ =~= face_result(*aabb, f as int, faces, partials, neighbours@[f as int]));
        }
        extents.push(e);
        f = f + 1;
    }
    extents
}

/// One emitted quad: its origin in voxel space (page origin plus the offset
/// inside the page), its face (0 to 5, the index of its
/// direction bit), its packed width and height, the page's voxel bits, the index
/// of its material in the material table, and which voxel rows use it.
#[derive(Clone, Copy, Debug)]
pub struct OctreeRenderAttribute {
    pub x: u8,
    pub y: u8,
    pub z: u8,
    pub flags: u8,
    pub size: u8,
    pub voxels: [u8; 64],
    pub material_pointer: u32,
    pub material_mask: u64,
    pub padding: [u8; 3],
}

impl OctreeRenderAttribute {
    /// A quad at `(x, y, z)` of `width` by `height` facing `dir`, a single
    /// direction bit.
    pub fn new(
        x: u8,
        y: u8,
        z: u8,
        width: u8,
        height: u8,
        dir: u8,
        voxels: &[u8; 64],
        material_pointer: u32,
        material_mask: u64,
    ) -> (r: OctreeRenderAttribute)
        requires
            1 <= width <= 8,
            1 <= height <= 8,
        ensures
            r.x == x && r.y == y && r.z == z,
            r.flags == low_bit(dir, 0),
            r.size == crate::face::size_code(width as int, height as int),
            r.voxels == *voxels,
            r.material_pointer == material_pointer,
            r.material_mask == material_mask,
            r.padding == [0u8, 0u8, 0u8],
    {
        OctreeRenderAttribute {
            x,
            y,
            z,
            flags: lowest_bit(dir),
            size: crate::face::encode_size(width, height),
            voxels: *voxels,
            material_pointer,
            material_mask,
            padding: [0u8, 0u8, 0u8],
        }
    }

    /// As `new`, with the origin given as a vector of coordinates below 256.
    pub fn new_with_position(
        position: UVec3,
        width: u8,
        height: u8,
        dir: u8,
        voxels: &[u8; 64],
        material_pointer: u32,
        material_mask: u64,
    ) -> (r: OctreeRenderAttribute)
        requires
            position.x < 256 && position.y < 256 && position.z < 256,
            1 <= width <= 8,
            1 <= height <= 8,
        ensures
            r.x == position.x && r.y == position.y && r.z == position.z,
            r.flags == low_bit(dir, 0),
            r.size == crate::face::size_code(width as int, height as int),
            r.voxels == *voxels,
            r.material_pointer == material_pointer,
            r.material_mask == material_mask,
            r.padding == [0u8, 0u8, 0u8],
    {
        Self::new(
            position.x as u8,
            position.y as u8,
            position.z as u8,
            width,
            height,
            dir,
            voxels,
            material_pointer,
            material_mask,
        )
    }
}

/// The quad face `f` of the box `b` of the page at `page` shows with extent `e`:
/// its origin is the page's voxel origin plus, inside the page, the face's
/// coordinate on the face's axis and the extent's corner on the two others.
pub open spec fn face_attribute(
    page: UVec3,
    b: BoundingBox,
    f: int,
    e: FaceExtent,
    voxels: [u8; 64],
    material_pointer: u32,
    material_mask: u64,
) -> OctreeRenderAttribute {
    let c = face_coord(b, f);
    let (lx, ly, lz) = if f / 2 == 0 {
        (c, e.x as int, e.y as int)
    } else if f / 2 == 1 {
        (e.x as int, c, e.y as int)
    } else {
        (e.x as int, e.y as int, c)
    };
    OctreeRenderAttribute {
        x: (page.x * 8 + lx) as u8,
        y: (page.y * 8 + ly) as u8,
        z: (page.z * 8 + lz) as u8,
        flags: f as u8,
        size: e.size,
        voxels,
        material_pointer,
        material_mask,
        padding: [0u8, 0u8, 0u8],
    }
}

/// The quads of the first `n` extents face `f` shows, in order.
pub open spec fn face_attributes(
    page: UVec3,
    b: BoundingBox,
    f: int,
    es: Seq<FaceExtent>,
    voxels: [u8; 64],
    material_pointer: u32,
    material_mask: u64,
    n: nat,
) -> Seq<OctreeRenderAttribute>
    decreases n,
{
    if n == 0 {
        seq![]
    } else {
        face_attributes(page, b, f, es, voxels, material_pointer, material_mask, (n - 1) as nat).push(
            face_attribute(page, b, f, es[n - 1], voxels, material_pointer, material_mask),
        )
    }
}

/// The quads of the first `k` faces of a box, in face order.
pub open spec fn box_attributes(
    page: UVec3,
    b: BoundingBox,
    faces: Seq<Seq<FaceExtent>>,
    voxels: [u8; 64],
    material_pointer: u32,
    material_mask: u64,
    k: nat,
) -> Seq<OctreeRenderAttribute>
    decreases k,
{
    if k == 0 {
        seq![]
    } else {
        box_attributes(page, b, faces, voxels, material_pointer, material_mask, (k - 1) as nat)
            + face_attributes(
            page,
            b,
            k - 1,
            faces[k - 1],
            voxels,
            material_pointer,
            material_mask,
            faces[k - 1].len(),
        )
    }
}

/// The index of the first `m` in `t` at or after `i`, or `t.len()` if none.
pub open spec fn find_from(t: Seq<u16>, m: u16, i: nat) -> nat
    decreases t.len() - i,
{
    if i >= t.len() {
        t.len()
    } else if t[i as int] == m {
        i
    } else {
        find_from(t, m, i + 1)
    }
}

/// The material table after a page of material `m` is meshed: `m` is appended
/// unless it is already there.
pub open spec fn table_after(t: Seq<u16>, m: u16) -> Seq<u16> {
    if find_from(t, m, 0) < t.len() {
        t
    } else {
        t.push(m)
    }
}

/// A page the mesher has decided to draw: its position in the map, the extents
/// each of its six faces shows, its occupied box, voxels, material and rows.
pub struct OctreeRenderBox {
    pub position: UVec3,
    pub faces: Vec<Vec<FaceExtent>>,
    pub aabb: BoundingBox,
    pub voxels: [u8; 64],
    pub material: u16,
    pub rows: u64,
}

impl OctreeRenderBox {
    /// The extents of the six faces as lists.
    pub open spec fn face_lists(&self) -> Seq<Seq<FaceExtent>> {
        Seq::new(self.faces@.len(), |f: int| self.faces@[f]@)
    }

    /// The box can be drawn: six faces, a box inside the page, extents inside
    /// the page faces, and a page of a map no larger than the largest.
    pub open spec fn drawable(&self) -> bool {
        &&& self.faces@.len() == 6
        &&& box_in_page(self.aabb)
        &&& forall|f: int| 0 <= f < 6 ==> extents_in_page(#[trigger] self.faces@[f]@)
        &&& self.position.x < MAX_MAP_SIZE && self.position.y < MAX_MAP_SIZE && self.position.z
            < MAX_MAP_SIZE
    }
}

impl OctreeRenderBox {
    /// Looks the box's material up in the table, appending it when it is new,
    /// and returns its index with the box's row mask.
    pub fn add_materials_to_texture(&self, texture: &mut Vec<u16>) -> (r: (u32, u64))
        requires
            old(texture)@.len() < 0xffff_ffff,
        ensures
            r.0 == find_from(old(texture)@, self.material, 0),
            r.1 == self.rows,
            final(texture)@ == table_after(old(texture)@, self.material),
    {
        let mut i: usize = 0;
        while i < texture.len() && texture[i] != self.material
            invariant
                i <= texture@.len(),
                texture@.len() < 0xffff_ffff,
                find_from(texture@, self.material, 0) == find_from(texture@, self.material, i as nat),
            decreases texture@.len() - i,
        {
            i = i + 1;
        }
        if i == texture.len() {
            texture.push(self.material);
        }
        (i as u32, self.rows)
    }

    /// Appends one quad for each extent of each face of the box, in face order.
    pub fn add_faces_to_buffer(
        &self,
        back: &mut Vec<OctreeRenderAttribute>,
        material_pointer: u32,
        material_mask: u64,
    )
        requires
            self.drawable(),
        ensures
            final(back)@ == old(back)@ + box_attributes(
                self.position,
                self.aabb,
                self.face_lists(),
                self.voxels,
                material_pointer,
                material_mask,
                6,
            ),
    {
        let ghost start = back@;
        let ghost lists = self.face_lists();
        let ox = self.position.x * 8;
        let oy = self.position.y * 8;
        let oz = self.position.z * 8;
        let mut f: usize = 0;
        while f < 6
            invariant
                f <= 6,
                self.drawable(),
                lists == self.face_lists(),
                ox == self.position.x * 8 && oy == self.position.y * 8 && oz == self.position.z * 8,
                back@ == start + box_attributes(
                    self.position,
                    self.aabb,
                    lists,
                    self.voxels,
                    material_pointer,
                    material_mask,
                    f as nat,
                ),
            decreases 6 - f,
        {
            let list = &self.faces[f];
            let ghost before = back@;
            assert(lists[f as int] == list@);
            let c = face_coord_of(&self.aabb, f);
            let mut i: usize = 0;
            while i < list.len()
                invariant
                    f < 6,
                    i <= list@.len(),
                    self.drawable(),
                    list@ == self.faces@[f as int]@,
                    ox == self.position.x * 8 && oy == self.position.y * 8 && oz == self.position.z * 8,
                    c == face_coord(self.aabb, f as int),
                    back@ == before + face_attributes(
                        self.position,
                        self.aabb,
                        f as int,
                        list@,
                        self.voxels,
                        material_pointer,
                        material_mask,
                        i as nat,
                    ),
                decreases list@.len() - i,
            {
                let e = list[i];
                assert(e.x < 8 && e.y < 8);
                let (lx, ly, lz) = if f / 2 == 0 {
                    (c, e.x, e.y)
                } else if f / 2 == 1 {
                    (e.x, c, e.y)
                } else {
                    (e.x, e.y, c)
                };
                back.push(
                    OctreeRenderAttribute {
                        x: (ox + lx as u32) as u8,
                        y: (oy + ly as u32) as u8,
                        z: (oz + lz as u32) as u8,
                        flags: f as u8,
                        size: e.size,
                        voxels: self.voxels,
                        material_pointer,
                        material_mask,
                        padding: [0u8, 0u8, 0u8],
                    },
                );
                i = i + 1;
            }
            proof {
                assert(start + box_attributes(
                    self.position,
                    self.aabb,
                    lists,
                    self.voxels,
                    material_pointer,
                    material_mask,
                    (f + 1) as nat,
                ) =~= back@);
            }
            f = f + 1;
        }
    }
}

/// The page next to `pos` across face `f`, if the map has one.
pub open spec fn neighbour_pos(size: u32, pos: UVec3, f: int) -> Option<UVec3> {
    if f == 0 {
        if pos.x > 0 { Some(UVec3 { x: (pos.x - 1) as u32, ..pos }) } else { None }
    } else if f == 1 {
        if pos.x + 1 < size { Some(UVec3 { x: (pos.x + 1) as u32, ..pos }) } else { None }
    } else if f == 2 {
        if pos.y > 0 { Some(UVec3 { y: (pos.y - 1) as u32, ..pos }) } else { None }
    } else if f == 3 {
        if pos.y + 1 < size { Some(UVec3 { y: (pos.y + 1) as u32, ..pos }) } else { None }
    } else if f == 4 {
        if pos.z > 0 { Some(UVec3 { z: (pos.z - 1) as u32, ..pos }) } else { None }
    } else {
        if pos.z + 1 < size { Some(UVec3 { z: (pos.z + 1) as u32, ..pos }) } else { None }
    }
}

/// The full-octant mask of the page next to `pos` across face `f`.
pub open spec fn neighbour_full(map: Array3D2P<OctreeBoxEntry>, pos: UVec3, f: int) -> Option<u8> {
    match neighbour_pos(map.size, pos, f) {
        Some(n) => Some(page_summary(map.at(n).voxels).full),
        None => None,
    }
}

/// The extents the six faces of a page with box `b` show.
pub open spec fn box_faces(
    map: Array3D2P<OctreeBoxEntry>,
    pos: UVec3,
    faces: u8,
    partials: u8,
    b: BoundingBox,
) -> Seq<Seq<FaceExtent>> {
    Seq::new(6, |f: int| face_result(b, f, faces, partials, neighbour_full(map, pos, f)))
}

/// What `create` makes of the page at `pos`: nothing when no face is requested,
/// the page is empty, its box is empty or no face shows; else its box and the
/// extent of each face.
pub open spec fn render_box(
    map: Array3D2P<OctreeBoxEntry>,
    pos: UVec3,
    faces: u8,
    partials: u8,
) -> Option<(BoundingBox, Seq<Seq<FaceExtent>>)> {
    let s = page_summary(map.at(pos).voxels);
    let b = page_box(s);
    let fs = box_faces(map, pos, faces, partials, b);
    if faces == NONE || s.occupied == 0 || b.is_empty() {
        None
    } else if forall|f: int| 0 <= f < 6 ==> (#[trigger] fs[f]).len() == 0 {
        None
    } else {
        Some((b, fs))
    }
}

fn neighbour_of(map: &Array3D2P<OctreeBoxEntry>, pos: UVec3, f: usize) -> (r: Option<UVec3>)
    requires
        map.well_formed(),
        map.contains(pos),
        f < 6,
    ensures
        r == neighbour_pos(map.size, pos, f as int),
        r matches Some(n) ==> map.contains(n),
{
    let size = map.size;
    if f == 0 {
        if pos.x > 0 { Some(UVec3 { x: pos.x - 1, ..pos }) } else { None }
    } else if f == 1 {
        if pos.x + 1 < size { Some(UVec3 { x: pos.x + 1, ..pos }) } else { None }
    } else if f == 2 {
        if pos.y > 0 { Some(UVec3 { y: pos.y - 1, ..pos }) } else { None }
    } else if f == 3 {
        if pos.y + 1 < size { Some(UVec3 { y: pos.y + 1, ..pos }) } else { None }
    } else if f == 4 {
        if pos.z > 0 { Some(UVec3 { z: pos.z - 1, ..pos }) } else { None }
    } else {
        if pos.z + 1 < size { Some(UVec3 { z: pos.z + 1, ..pos }) } else { None }
    }
}

fn neighbour_full_masks(map: &Array3D2P<OctreeBoxEntry>, pos: UVec3) -> (r: Vec<Option<u8>>)
    requires
        map.well_formed(),
        map.contains(pos),
    ensures
        r@.len() == 6,
        forall|f: int| 0 <= f < 6 ==> #[trigger] r@[f] == neighbour_full(*map, pos, f),
{
    let mut r: Vec<Option<u8>> = Vec::with_capacity(6);
    let mut f: usize = 0;
    while f < 6
        invariant
            f <= 6,
            map.well_formed(),
            map.contains(pos),
            r@.len() == f,
            forall|i: int| 0 <= i < f ==> #[trigger] r@[i] == neighbour_full(*map, pos, i),
        decreases 6 - f,
    {
        let m = match neighbour_of(map, pos, f) {
            Some(n) => Some(summarize_page(&map.get(n).voxels).full),
            None => None,
        };
        r.push(m);
        f = f + 1;
    }
    r
}

impl OctreeRenderBox {
    /// Decides whether the page at `position` is drawn and with which extents:
    /// `faces` are the requested directions, `partials` the directions whose
    /// neighbour page is partly solid.
    pub fn create(
        position: UVec3,
        faces: u8,
        partials: u8,
        map: &Array3D2P<OctreeBoxEntry>,
        table: &Vec<BoundingBox>,
    ) -> (r: Option<OctreeRenderBox>)
        requires
            map.well_formed(),
            map.contains(position),
            is_mask_table(table@),
        ensures
            r is None <==> render_box(*map, position, faces, partials) is None,
            r matches Some(rb) ==> {
                let (b, fs) = render_box(*map, position, faces, partials).unwrap();
                &&& rb.position == position
                &&& rb.aabb == b
                &&& rb.face_lists() == fs
                &&& rb.voxels == map.at(position).voxels
                &&& rb.material == map.at(position).material
                &&& rb.rows == page_summary(map.at(position).voxels).rows
                &&& rb.drawable()
            },
    {
        if faces == NONE {
            return None;
        }
        let entry = map.get(position);
        let s = summarize_page(&entry.voxels);
        if s.occupied == 0 {
            return None;
        }
        let aabb = compute_page_box(&s, table);
        if aabb.zero() {
            return None;
        }
        let neighbours = neighbour_full_masks(map, position);
        let extents = clip_face_extents(&aabb, faces, partials, &neighbours);
        let ghost fs = box_faces(*map, position, faces, partials, aabb);
        let mut any = false;
        let mut f: usize = 0;
        while f < 6
            invariant
                f <= 6,
                extents@.len() == 6,
                any == exists|i: int| 0 <= i < f && (#[trigger] extents@[i])@.len() > 0,
            decreases 6 - f,
        {
            if extents[f].len() > 0 {
                any = true;
            }
            f = f + 1;
        }
        proof {
            if !any {
                assert forall|i: int| 0 <= i < 6 implies (#[trigger] fs[i]).len() == 0 by {
                    assert(extents@[i]@ == fs[i]);
                }
            } else {
                let i = choose|i: int| 0 <= i < 6 && (#[trigger] extents@[i])@.len() > 0;
                assert(fs[i] == extents@[i]@);
            }
        }
        if !any {
            return None;
        }
        let rb = OctreeRenderBox {
            position,
            faces: extents,
            aabb,
            voxels: entry.voxels,
            material: entry.material,
            rows: s.rows,
        };
        assert(rb.face_lists() =~= fs);
        Some(rb)
    }
}


/// All four octants touching face `g` are full.
pub open spec fn face_full(full: u8, g: int) -> bool {
    &&& octant_bit(full, face_octant(g, 0))
    &&& octant_bit(full, face_octant(g, 1))
    &&& octant_bit(full, face_octant(g, 2))
    &&& octant_bit(full, face_octant(g, 3))
}

/// The requested and the partial directions of the page at `pos`, over its
/// first `k` faces: a face is requested unless the neighbour across it is full
/// there, and partial when that neighbour is neither empty nor full there.
pub open spec fn exposure_upto(map: Array3D2P<OctreeBoxEntry>, pos: UVec3, k: nat) -> (u8, u8)
    decreases k,
{
    if k == 0 {
        (0, 0)
    } else {
        let (fa, pa) = exposure_upto(map, pos, (k - 1) as nat);
        let f = k - 1;
        let bit = 1u8 << (f as u8);
        match neighbour_pos(map.size, pos, f) {
            None => (fa | bit, pa),
            Some(n) => {
                let s = page_summary(map.at(n).voxels);
                if s.occupied == 0 {
                    (fa | bit, pa)
                } else if face_full(s.full, f + 1 - 2 * (f % 2)) {
                    (fa, pa)
                } else {
                    (fa | bit, pa | bit)
                }
            },
        }
    }
}

pub open spec fn page_exposure(map: Array3D2P<OctreeBoxEntry>, pos: UVec3) -> (u8, u8) {
    exposure_upto(map, pos, 6)
}

fn face_is_full(full: u8, g: usize) -> (r: bool)
    requires
        g < 6,
    ensures
        r == face_full(full, g as int),
{
    let mut k: u8 = 0;
    while k < 4
        invariant
            k <= 4,
            g < 6,
            forall|j: int| 0 <= j < k ==> #[trigger] octant_bit(full, face_octant(g as int, j)),
        decreases 4 - k,
    {
        if (full >> face_octant_code(g, k)) & 1u8 != 1u8 {
            return false;
        }
        k = k + 1;
    }
    assert(octant_bit(full, face_octant(g as int, 0)));
    assert(octant_bit(full, face_octant(g as int, 1)));
    assert(octant_bit(full, face_octant(g as int, 2)));
    assert(octant_bit(full, face_octant(g as int, 3)));
    true
}

/// The requested and the partial directions of the page at `pos`.
pub fn exposed_faces(map: &Array3D2P<OctreeBoxEntry>, pos: UVec3) -> (r: (u8, u8))
    requires
        map.well_formed(),
        map.contains(pos),
    ensures
        r == page_exposure(*map, pos),
{
    let mut fa: u8 = 0;
    let mut pa: u8 = 0;
    let mut f: usize = 0;
    while f < 6
        invariant
            f <= 6,
            map.well_formed(),
            map.contains(pos),
            (fa, pa) == exposure_upto(*map, pos, f as nat),
        decreases 6 - f,
    {
        let bit = 1u8 << (f as u8);
        match neighbour_of(map, pos, f) {
            None => {
                fa = fa | bit;
            },
            Some(n) => {
                let s = summarize_page(&map.get(n).voxels);
                if s.occupied == 0 {
                    fa = fa | bit;
                } else if face_is_full(s.full, f + 1 - 2 * (f % 2)) {
                } else {
                    fa = fa | bit;
                    pa = pa | bit;
                }
            },
        }
        f = f + 1;
    }
    (fa, pa)
}

/// The quads and the material table after one more page.
pub open spec fn mesh_step(
    map: Array3D2P<OctreeBoxEntry>,
    pos: UVec3,
    quads: Seq<OctreeRenderAttribute>,
    materials: Seq<u16>,
) -> (Seq<OctreeRenderAttribute>, Seq<u16>) {
    let (faces, partials) = page_exposure(map, pos);
    match render_box(map, pos, faces, partials) {
        None => (quads, materials),
        Some((b, fs)) => {
            let e = map.at(pos);
            let pointer = find_from(materials, e.material, 0);
            (
                quads + box_attributes(
                    pos,
                    b,
                    fs,
                    e.voxels,
                    pointer as u32,
                    page_summary(e.voxels).rows,
                    6,
                ),
                table_after(materials, e.material),
            )
        },
    }
}

/// The quads and material table after the first `n` pages.
pub open spec fn mesh_upto(map: Array3D2P<OctreeBoxEntry>, n: nat) -> (
    Seq<OctreeRenderAttribute>,
    Seq<u16>,
)
    decreases n,
{
    if n == 0 {
        (seq![], seq![])
    } else {
        let (q, m) = mesh_upto(map, (n - 1) as nat);
        mesh_step(map, page_at_index(map.size, n - 1), q, m)
    }
}

/// Meshes every page of the map in index order, collecting the quads and the
/// table of materials they use.
pub fn mesh_pages(map: &Array3D2P<OctreeBoxEntry>, table: &Vec<BoundingBox>) -> (r: (
    Vec<OctreeRenderAttribute>,
    Vec<u16>,
))
    requires
        map.well_formed(),
        is_mask_table(table@),
    ensures
        (r.0@, r.1@) == mesh_upto(*map, map.data@.len()),
{
    let mut quads: Vec<OctreeRenderAttribute> = Vec::new();
    let mut materials: Vec<u16> = Vec::new();
    let size = map.size;
    proof {
        crate::builder::lemma_span_bounds(map.size_power as nat);
    }
    let len = map.data.len();
    let mut n: usize = 0;
    while n < len
        invariant
            map.well_formed(),
            is_mask_table(table@),
            size == map.size,
            1 <= size <= 32,
            len == map.data@.len(),
            n <= len,
            materials@.len() <= n,
            (quads@, materials@) == mesh_upto(*map, n as nat),
        decreases len - n,
    {
        proof {
            lemma_page_at_index_inside(size, n as int);
            assert(len <= 32768 && size * size <= 1024) by (nonlinear_arith)
                requires
                    len == size * size * size,
                    size <= 32,
            ;
        }
        let ni = n as u32;
        let pos = UVec3 { x: ni % size, y: (ni / size) % size, z: ni / (size * size) };
        assert(pos == page_at_index(size, n as int));
        let (faces, partials) = exposed_faces(map, pos);
        match OctreeRenderBox::create(pos, faces, partials, map, table) {
            None => {},
            Some(rb) => {
                let (pointer, mask) = rb.add_materials_to_texture(&mut materials);
                rb.add_faces_to_buffer(&mut quads, pointer, mask);
            },
        }
        n = n + 1;
    }
    (quads, materials)
}


/// The bytes one attribute takes in the wire format.
pub const ATTRIBUTE_BYTES: usize = 84;

/// The `n` low bytes of `v`, least significant first.
pub open spec fn le_bytes(v: nat, n: nat) -> Seq<u8>
    decreases n,
{
    if n == 0 {
        seq![]
    } else {
        seq![(v % 256) as u8] + le_bytes(v / 256, (n - 1) as nat)
    }
}

/// The wire form of one attribute: position, face and size bytes, the 64
/// voxel bytes, the material pointer and mask in little-endian order, and three
/// bytes of padding.
pub open spec fn attribute_bytes(a: OctreeRenderAttribute) -> Seq<u8> {
    seq![a.x, a.y, a.z, a.flags, a.size] + a.voxels@ + le_bytes(a.material_pointer as nat, 4)
        + le_bytes(a.material_mask as nat, 8) + a.padding@
}

/// The wire form of the first `k` attributes, one after another.
pub open spec fn attributes_bytes(quads: Seq<OctreeRenderAttribute>, k: nat) -> Seq<u8>
    decreases k,
{
    if k == 0 {
        seq![]
    } else {
        attributes_bytes(quads, (k - 1) as nat) + attribute_bytes(quads[k - 1])
    }
}

fn push_le_bytes(out: &mut Vec<u8>, v: u64, n: u32)
    requires
        n <= 8,
    ensures
        final(out)@ == old(out)@ + le_bytes(v as nat, n as nat),
{
    let ghost target = old(out)@ + le_bytes(v as nat, n as nat);
    let mut rest: u64 = v;
    let mut i: u32 = 0;
    while i < n
        invariant
            i <= n,
            out@ + le_bytes(rest as nat, (n - i) as nat) == target,
        decreases n - i,
    {
        proof {
            assert(out@ + le_bytes(rest as nat, (n - i) as nat) =~= out@.push((rest % 256) as u8)
                + le_bytes((rest / 256) as nat, (n - i - 1) as nat));
        }
        out.push((rest % 256) as u8);
        rest = rest / 256;
        i = i + 1;
    }
    proof {
        assert(out@ + le_bytes(rest as nat, 0) =~= out@);
    }
}

fn push_all(out: &mut Vec<u8>, bytes: &[u8])
    ensures
        final(out)@ == old(out)@ + bytes@,
{
    let ghost start = old(out)@;
    let mut i: usize = 0;
    while i < bytes.len()
        invariant
            i <= bytes@.len(),
            out@ == start + bytes@.subrange(0, i as int),
        decreases bytes@.len() - i,
    {
        out.push(bytes[i]);
        i = i + 1;
        proof {
            assert(bytes@.subrange(0, i as int) =~= bytes@.subrange(0, i - 1).push(bytes@[i - 1]));
        }
    }
    proof {
        assert(bytes@.subrange(0, bytes@.len() as int) =~= bytes@);
    }
}

impl OctreeRenderAttribute {
    /// Appends the attribute's wire form to `out`.
    pub fn to_bytes(&self, out: &mut Vec<u8>)
        ensures
            final(out)@ == old(out)@ + attribute_bytes(*self),
    {
        let ghost start = old(out)@;
        out.push(self.x);
        out.push(self.y);
        out.push(self.z);
        out.push(self.flags);
        out.push(self.size);
        push_all(out, &self.voxels);
        push_le_bytes(out, self.material_pointer as u64, 4);
        push_le_bytes(out, self.material_mask, 8);
        push_all(out, &self.padding);
        proof {
            assert(out@ =~= start + attribute_bytes(*self));
        }
    }
}

proof fn lemma_le_bytes_len(v: nat, n: nat)
    ensures
        le_bytes(v, n).len() == n,
    decreases n,
{
    if n > 0 {
        lemma_le_bytes_len(v / 256, (n - 1) as nat);
    }
}

/// Every attribute takes `ATTRIBUTE_BYTES` bytes on the wire.
pub proof fn lemma_attribute_bytes_len(a: OctreeRenderAttribute)
    ensures
        attribute_bytes(a).len() == ATTRIBUTE_BYTES,
{
    lemma_le_bytes_len(a.material_pointer as nat, 4);
    lemma_le_bytes_len(a.material_mask as nat, 8);
}

proof fn lemma_attributes_bytes_len(quads: Seq<OctreeRenderAttribute>, k: nat)
    requires
        k <= quads.len(),
    ensures
        attributes_bytes(quads, k).len() == ATTRIBUTE_BYTES * k,
    decreases k,
{
    if k > 0 {
        lemma_attributes_bytes_len(quads, (k - 1) as nat);
        lemma_attribute_bytes_len(quads[k - 1]);
    }
}

/// The wire form of a list of quads, in order.
pub fn pack_attributes(quads: &Vec<OctreeRenderAttribute>) -> (r: Vec<u8>)
    ensures
        r@ == attributes_bytes(quads@, quads@.len()),
        r@.len() == ATTRIBUTE_BYTES * quads@.len(),
{
    proof {
        lemma_attributes_bytes_len(quads@, quads@.len());
    }
    let mut out: Vec<u8> = Vec::new();
    let mut i: usize = 0;
    while i < quads.len()
        invariant
            i <= quads@.len(),
            out@ == attributes_bytes(quads@, i as nat),
        decreases quads@.len() - i,
    {
        quads[i].to_bytes(&mut out);
        i = i + 1;
    }
    out
}


proof fn lemma_low_bit_at_most(m: u8, i: nat, x: int)
    requires
        i <= x < 8,
        bit_of(m, x),
    ensures
        low_bit(m, i) <= x,
    decreases 8 - i,
{
    if i < x && (m >> (i as u8)) & 1u8 != 1u8 {
        lemma_low_bit_at_most(m, i + 1, x);
    }
}

proof fn lemma_low_bit_bounded(m: u8, i: nat)
    ensures
        low_bit(m, i) <= 8,
    decreases 8 - i,
{
    if i < 8 {
        lemma_low_bit_bounded(m, i + 1);
    }
}

proof fn lemma_high_end_bounded(m: u8, i: nat)
    ensures
        high_end(m, i) <= i,
    decreases i,
{
    if i > 0 {
        lemma_high_end_bounded(m, (i - 1) as nat);
    }
}

proof fn lemma_high_end_above(m: u8, i: nat, x: int)
    requires
        0 <= x < i <= 8,
        bit_of(m, x),
    ensures
        high_end(m, i) > x,
    decreases i,
{
    if i - 1 > x && (m >> ((i - 1) as u8)) & 1u8 != 1u8 {
        lemma_high_end_above(m, (i - 1) as nat, x);
    }
}

proof fn lemma_corner_code(a: u8, b: u8, d: u8)
    requires
        a <= 1,
        b <= 1,
        d <= 1,
    ensures
        ((a + 2 * b + 4 * d) as u8) & 1u8 == a,
        (((a + 2 * b + 4 * d) as u8) >> 1u8) & 1u8 == b,
        (((a + 2 * b + 4 * d) as u8) >> 2u8) & 1u8 == d,
{
    let c = (a + 2 * b + 4 * d) as u8;
    assert(c == a | (b << 1u8) | (d << 2u8)) by (bit_vector)
        requires
            a <= 1,
            b <= 1,
            d <= 1,
            c == (a + 2 * b + 4 * d) as u8,
    ;
    assert(c & 1u8 == a && (c >> 1u8) & 1u8 == b && (c >> 2u8) & 1u8 == d) by (bit_vector)
        requires
            a <= 1,
            b <= 1,
            d <= 1,
            c == a | (b << 1u8) | (d << 2u8),
    ;
}

/// Every solid voxel of a page lies inside the page's box: refining the
/// table's coarse box against the axis masks loses no voxel.
pub proof fn lemma_page_box_holds_solid_voxels(voxels: [u8; 64], x: int, y: int, z: int)
    requires
        0 <= x < 8,
        0 <= y < 8,
        0 <= z < 8,
        solid(voxels, x, y, z),
    ensures
        ({
            let b = page_box(page_summary(voxels));
            b.x <= x < b.u && b.y <= y < b.v && b.z <= z < b.w
        }),
{
    let s = page_summary(voxels);
    lemma_solid_voxel_in_summary(voxels, x, y, z);
    lemma_low_bit_at_most(s.xmask, 0, x);
    lemma_low_bit_at_most(s.ymask, 0, y);
    lemma_low_bit_at_most(s.zmask, 0, z);
    lemma_high_end_above(s.xmask, 8, x);
    lemma_high_end_above(s.ymask, 8, y);
    lemma_high_end_above(s.zmask, 8, z);
    let (a, b, d) = ((x / 4) as u8, (y / 4) as u8, (z / 4) as u8);
    let c = (a + 2 * b + 4 * d) as u8;
    lemma_corner_code(a, b, d);
    let occ = s.occupied;
    assert(corner_set(occ, c));
    assert(occ != 0) by (bit_vector)
        requires
            (occ >> c) & 1u8 == 1u8,
    ;
    lemma_mask_box_is_union_of_corner_cubes(occ);
    assert(holds(mask_box(occ), corner_cube(c)));
    lemma_mask_box_small(occ);
    lemma_low_bit_bounded(s.xmask, 0);
    lemma_low_bit_bounded(s.ymask, 0);
    lemma_low_bit_bounded(s.zmask, 0);
    lemma_high_end_bounded(s.xmask, 8);
    lemma_high_end_bounded(s.ymask, 8);
    lemma_high_end_bounded(s.zmask, 8);
    let mb = mask_box(occ);
    let coarse = scaled_box(mb);
    let tight = tight_box(s);
    assert(mb.x <= a && a + 1 <= mb.u);
    assert(mb.y <= b && b + 1 <= mb.v);
    assert(mb.z <= d && d + 1 <= mb.w);
    assert(coarse.x <= x < coarse.u);
    assert(coarse.y <= y < coarse.v);
    assert(coarse.z <= z < coarse.w);
    assert(tight.x <= x < tight.u);
    assert(tight.y <= y < tight.v);
    assert(tight.z <= z < tight.w);
}

} // verus!

verus! {

/// The quarter of a face a cell lies in.
pub open spec fn quarter_of(a: int, b: int) -> int {
    (if a >= 4 { 1int } else { 0int }) + 2 * (if b >= 4 { 1int } else { 0int })
}

/// A candidate face every quarter of which that it meets is open comes back as
/// itself: one rectangle, the candidate.
pub proof fn lemma_visible_whole(cand: Rect, full: u8, g: int)
    requires
        rect_in_page(cand),
        forall|k: int|
            0 <= k < 4 && #[trigger] rect_meet(cand, quadrant(k)) is Some ==> !octant_bit(
                full,
                face_octant(g, k),
            ),
    ensures
        visible_part(cand, full, g) == seq![cand],
{
    assert(quadrant(0) == (0int, 0int, 4int, 4int));
    assert(quadrant(1) == (4int, 0int, 8int, 4int));
    assert(quadrant(2) == (0int, 4int, 4int, 8int));
    assert(quadrant(3) == (4int, 4int, 8int, 8int));
    let m0 = rect_meet(cand, quadrant(0));
    let m1 = rect_meet(cand, quadrant(1));
    let m2 = rect_meet(cand, quadrant(2));
    let m3 = rect_meet(cand, quadrant(3));
    let r0 = join_row(open_piece(cand, full, g, 0), open_piece(cand, full, g, 1));
    let r1 = join_row(open_piece(cand, full, g, 2), open_piece(cand, full, g, 3));
    if m0 is Some || m1 is Some {
        assert(r0.len() == 1 && r0[0].0 == cand.0 && r0[0].2 == cand.2 && r0[0].1 == cand.1);
    }
    if m2 is Some || m3 is Some {
        assert(r1.len() == 1 && r1[0].0 == cand.0 && r1[0].2 == cand.2 && r1[0].3 == cand.3);
    }
    assert(visible_part(cand, full, g) =~= seq![cand]);
}

/// The row join covers a cell exactly when one of its two pieces does.
proof fn lemma_join_row_covers(p: Option<Rect>, q: Option<Rect>, a: int, b: int)
    requires
        p matches Some(x) ==> x.0 < x.2 && x.1 < x.3,
        q matches Some(y) ==> y.0 < y.2 && y.1 < y.3,
    ensures
        (exists|i: int| 0 <= i < join_row(p, q).len() && rect_has(#[trigger] join_row(p, q)[i], a, b))
            <==> ((p matches Some(x) && rect_has(x, a, b)) || (q matches Some(y) && rect_has(y, a, b))),
{
    let r = join_row(p, q);
    if (p matches Some(x) && rect_has(x, a, b)) || (q matches Some(y) && rect_has(y, a, b)) {
        if r.len() == 1 {
            assert(rect_has(r[0], a, b));
        } else if p matches Some(x) && rect_has(x, a, b) {
            assert(rect_has(r[0], a, b));
        } else {
            assert(rect_has(r[r.len() - 1], a, b));
        }
    }
}

/// Cell by cell, what shows of a candidate face is exactly the candidate met
/// with the open quarters of the neighbour's face.
pub proof fn lemma_visible_exact(cand: Rect, full: u8, g: int, a: int, b: int)
    requires
        rect_in_page(cand),
        0 <= a < 8,
        0 <= b < 8,
    ensures
        (exists|i: int|
            0 <= i < visible_part(cand, full, g).len() && rect_has(
                #[trigger] visible_part(cand, full, g)[i],
                a,
                b,
            )) <==> (rect_has(cand, a, b) && !octant_bit(full, face_octant(g, quarter_of(a, b)))),
{
    assert(quadrant(0) == (0int, 0int, 4int, 4int));
    assert(quadrant(1) == (4int, 0int, 8int, 4int));
    assert(quadrant(2) == (0int, 4int, 4int, 8int));
    assert(quadrant(3) == (4int, 4int, 8int, 8int));
    let p0 = open_piece(cand, full, g, 0);
    let p1 = open_piece(cand, full, g, 1);
    let p2 = open_piece(cand, full, g, 2);
    let p3 = open_piece(cand, full, g, 3);
    let vp = visible_part(cand, full, g);
    let r0 = join_row(p0, p1);
    let r1 = join_row(p2, p3);
    lemma_join_row_covers(p0, p1, a, b);
    lemma_join_row_covers(p2, p3, a, b);
    let in0 = exists|i: int| 0 <= i < r0.len() && rect_has(#[trigger] r0[i], a, b);
    let in1 = exists|i: int| 0 <= i < r1.len() && rect_has(#[trigger] r1[i], a, b);
    let inv = exists|i: int| 0 <= i < vp.len() && rect_has(#[trigger] vp[i], a, b);
    let want = rect_has(cand, a, b) && !octant_bit(full, face_octant(g, quarter_of(a, b)));
    assert(want <==> (in0 || in1));
    if vp =~= r0 + r1 {
        if in0 {
            let i = choose|i: int| 0 <= i < r0.len() && rect_has(#[trigger] r0[i], a, b);
            assert(vp[i] == r0[i]);
        }
        if in1 {
            let i = choose|i: int| 0 <= i < r1.len() && rect_has(#[trigger] r1[i], a, b);
            assert(vp[r0.len() + i] == r1[i]);
        }
        if inv {
            let i = choose|i: int| 0 <= i < vp.len() && rect_has(#[trigger] vp[i], a, b);
            if i < r0.len() {
                assert(vp[i] == r0[i]);
            } else {
                assert(vp[i] == r1[i - r0.len()]);
            }
        }
    } else {
        assert(r0.len() == 1 && r1.len() == 1);
        assert(rect_has(vp[0], a, b) <==> (rect_has(r0[0], a, b) || rect_has(r1[0], a, b)));
        if in0 || in1 {
            assert(rect_has(vp[0], a, b));
        }
    }
}

} // verus!

verus! {

/// Only voxel (0, 0, 0) of the page is solid.
pub open spec fn only_corner_solid(voxels: [u8; 64]) -> bool {
    voxels@[0] == 1 && forall|r: int| 1 <= r < 64 ==> #[trigger] voxels@[r] == 0
}

proof fn lemma_only_bit_zero(m: u8)
    requires
        forall|c: int| 0 <= c < 8 ==> (#[trigger] bit_of(m, c) <==> c == 0),
    ensures
        m == 1,
{
    assert(bit_of(m, 0) && !bit_of(m, 1) && !bit_of(m, 2) && !bit_of(m, 3));
    assert(!bit_of(m, 4) && !bit_of(m, 5) && !bit_of(m, 6) && !bit_of(m, 7));
    assert(m == 1) by (bit_vector)
        requires
            (m >> 0u8) & 1u8 == 1u8,
            (m >> 1u8) & 1u8 != 1u8,
            (m >> 2u8) & 1u8 != 1u8,
            (m >> 3u8) & 1u8 != 1u8,
            (m >> 4u8) & 1u8 != 1u8,
            (m >> 5u8) & 1u8 != 1u8,
            (m >> 6u8) & 1u8 != 1u8,
            (m >> 7u8) & 1u8 != 1u8,
    ;
}

proof fn lemma_corner_summary(voxels: [u8; 64])
    requires
        only_corner_solid(voxels),
    ensures
        page_summary(voxels).occupied == 1,
        page_summary(voxels).xmask == 1,
        page_summary(voxels).ymask == 1,
        page_summary(voxels).zmask == 1,
{
    lemma_page_summary_meaning(voxels);
    lemma_page_summary_rows_meaning(voxels);
    assert forall|x: int, y: int, z: int|
        0 <= x < 8 && 0 <= y < 8 && 0 <= z < 8 implies (#[trigger] solid(voxels, x, y, z) <==> (x == 0
        && y == 0 && z == 0)) by {
        let r = z * 8 + y;
        let xx = x as u8;
        if r == 0 {
            assert(((1u8 >> xx) & 1u8 == 1u8) <==> xx == 0) by (bit_vector)
                requires
                    xx < 8,
            ;
        } else {
            assert(voxels@[r] == 0);
            assert((0u8 >> xx) & 1u8 != 1u8) by (bit_vector);
        }
    }
    let s = page_summary(voxels);
    assert forall|c: int| 0 <= c < 8 implies (#[trigger] bit_of(s.occupied, c) <==> c == 0) by {
        if c == 0 {
            assert(solid(voxels, 0, 0, 0));
        }
    }
    assert forall|c: int| 0 <= c < 8 implies (#[trigger] bit_of(s.xmask, c) <==> c == 0) by {
        if c == 0 {
            assert(solid(voxels, 0, 0, 0));
        }
    }
    assert forall|c: int| 0 <= c < 8 implies (#[trigger] bit_of(s.ymask, c) <==> c == 0) by {
        if c == 0 {
            assert(solid(voxels, 0, 0, 0));
        }
    }
    assert forall|c: int| 0 <= c < 8 implies (#[trigger] bit_of(s.zmask, c) <==> c == 0) by {
        if c == 0 {
            assert(solid(voxels, 0, 0, 0));
        }
    }
    lemma_only_bit_zero(s.occupied);
    lemma_only_bit_zero(s.xmask);
    lemma_only_bit_zero(s.ymask);
    lemma_only_bit_zero(s.zmask);
}

proof fn lemma_corner_page_box(voxels: [u8; 64])
    requires
        only_corner_solid(voxels),
    ensures
        page_box(page_summary(voxels)) == (BoundingBox { x: 0, y: 0, z: 0, u: 1, v: 1, w: 1 }),
{
    lemma_corner_summary(voxels);
    lemma_mask_box_is_union_of_corner_cubes(1);
    assert forall|c: u8| c < 8 implies (corner_set(1, c) <==> c == 0) by {
        assert(((1u8 >> c) & 1u8 == 1u8) <==> c == 0) by (bit_vector)
            requires
                c < 8,
        ;
    }
    assert(corner_cube(0) == (BoundingBox { x: 0, y: 0, z: 0, u: 1, v: 1, w: 1 })) by {
        assert((0u8 & 1u8) == 0u8 && ((0u8 >> 1u8) & 1u8) == 0u8 && ((0u8 >> 2u8) & 1u8) == 0u8)
            by (bit_vector);
    }
    let mb = mask_box(1);
    assert(mb == corner_cube(0));
    assert((1u8 >> 0u8) & 1u8 == 1u8) by (bit_vector);
    assert(low_bit(1, 0) == 0);
    assert((1u8 >> 7u8) & 1u8 != 1u8 && (1u8 >> 6u8) & 1u8 != 1u8 && (1u8 >> 5u8) & 1u8 != 1u8
        && (1u8 >> 4u8) & 1u8 != 1u8 && (1u8 >> 3u8) & 1u8 != 1u8 && (1u8 >> 2u8) & 1u8 != 1u8
        && (1u8 >> 1u8) & 1u8 != 1u8) by (bit_vector);
    reveal_with_fuel(high_end, 9);
    assert(high_end(1, 8) == 1);
}

/// A page whose only solid voxel is its corner (0, 0, 0), meshed with the
/// faces towards -x, -y and -z requested and no partial neighbour, gives
/// exactly three quads: one for each of those faces, each one voxel square,
/// at the page's corner.
pub proof fn lemma_single_corner_voxel_quads(
    map: Array3D2P<OctreeBoxEntry>,
    pos: UVec3,
    material_pointer: u32,
    material_mask: u64,
)
    requires
        map.well_formed(),
        map.contains(pos),
        only_corner_solid(map.at(pos).voxels),
    ensures
        render_box(map, pos, LEFT | DOWN | BACK, NONE) is Some,
        ({
            let (b, fs) = render_box(map, pos, LEFT | DOWN | BACK, NONE).unwrap();
            let q = box_attributes(pos, b, fs, map.at(pos).voxels, material_pointer, material_mask, 6);
            &&& q.len() == 3
            &&& q[0].flags == 0 && q[1].flags == 2 && q[2].flags == 4
            &&& forall|i: int|
                0 <= i < 3 ==> (#[trigger] q[i]).size == crate::face::size_code(1, 1) && q[i].x
                    == pos.x * 8 && q[i].y == pos.y * 8 && q[i].z == pos.z * 8
        }),
{
    let v = map.at(pos).voxels;
    lemma_corner_page_box(v);
    lemma_corner_summary(v);
    let b = page_box(page_summary(v));
    let faces: u8 = LEFT | DOWN | BACK;
    assert((1u8 | 4u8 | 16u8) == 21u8) by (bit_vector);
    assert(faces == 21);
    assert(((21u8 >> 0u8) & 1u8 == 1u8) && ((21u8 >> 1u8) & 1u8 != 1u8) && ((21u8 >> 2u8) & 1u8 == 1u8)
        && ((21u8 >> 3u8) & 1u8 != 1u8) && ((21u8 >> 4u8) & 1u8 == 1u8) && ((21u8 >> 5u8) & 1u8 != 1u8))
        by (bit_vector);
    assert(((0u8 >> 0u8) & 1u8 != 1u8) && ((0u8 >> 2u8) & 1u8 != 1u8) && ((0u8 >> 4u8) & 1u8 != 1u8))
        by (bit_vector);
    let fs = box_faces(map, pos, faces, NONE, b);
    let e = extent_of(0, 0, 1, 1);
    assert(fs[0] == seq![e]);
    assert(fs[1] == Seq::<FaceExtent>::empty());
    assert(fs[2] == seq![e]);
    assert(fs[3] == Seq::<FaceExtent>::empty());
    assert(fs[4] == seq![e]);
    assert(fs[5] == Seq::<FaceExtent>::empty());
    assert(render_box(map, pos, faces, NONE) == Some((b, fs)));
    assert(map.at(pos).voxels == v);
    let q = box_attributes(pos, b, fs, v, material_pointer, material_mask, 6);
    reveal_with_fuel(box_attributes, 7);
    reveal_with_fuel(face_attributes, 2);
    assert(e.x == 0 && e.y == 0);
    assert(q =~= seq![
        face_attribute(pos, b, 0, e, v, material_pointer, material_mask),
        face_attribute(pos, b, 2, e, v, material_pointer, material_mask),
        face_attribute(pos, b, 4, e, v, material_pointer, material_mask),
    ]);
}

} // verus!

verus! {

proof fn lemma_exposure_bit_settled(map: Array3D2P<OctreeBoxEntry>, pos: UVec3, f: int, k: nat)
    requires
        0 <= f < 6,
        f + 1 <= k <= 6,
    ensures
        has_face(exposure_upto(map, pos, k).0, f) == has_face(exposure_upto(map, pos, (f + 1) as nat).0, f),
        has_face(exposure_upto(map, pos, k).1, f) == has_face(exposure_upto(map, pos, (f + 1) as nat).1, f),
    decreases k,
{
    if k > f + 1 {
        lemma_exposure_bit_settled(map, pos, f, (k - 1) as nat);
        let (fa, pa) = exposure_upto(map, pos, (k - 1) as nat);
        crate::page::lemma_bit_or_single(fa, (k - 1) as u8, f as u8);
        crate::page::lemma_bit_or_single(pa, (k - 1) as u8, f as u8);
    }
}

proof fn lemma_low_bit_at_least(m: u8, i: nat)
    ensures
        low_bit(m, i) >= i || i > 8,
    decreases 8 - i,
{
    if i < 8 && (m >> (i as u8)) & 1u8 != 1u8 {
        lemma_low_bit_at_least(m, i + 1);
    }
}

/// The octant bits a fully solid page sets.
proof fn lemma_full_page(voxels: [u8; 64])
    requires
        forall|r: int| 0 <= r < 64 ==> #[trigger] voxels@[r] == 0xff,
    ensures
        page_summary(voxels).full == 0xff,
        page_summary(voxels).occupied == 0xff,
        page_box(page_summary(voxels)) == (BoundingBox { x: 0, y: 0, z: 0, u: 8, v: 8, w: 8 }),
{
    lemma_page_summary_meaning(voxels);
    lemma_page_summary_rows_meaning(voxels);
    let s = page_summary(voxels);
    assert forall|x: int, y: int, z: int|
        0 <= x < 8 && 0 <= y < 8 && 0 <= z < 8 implies #[trigger] solid(voxels, x, y, z) by {
        let xx = x as u8;
        assert(voxels@[z * 8 + y] == 0xff);
        assert((0xffu8 >> xx) & 1u8 == 1u8) by (bit_vector)
            requires
                xx < 8,
        ;
    }
    assert forall|c: int| 0 <= c < 8 implies #[trigger] bit_of(s.full, c) by {}
    assert forall|c: int| 0 <= c < 8 implies #[trigger] bit_of(s.occupied, c) by {
        let (x, y, z) = (c % 2 * 4, (c / 2) % 2 * 4, c / 4 * 4);
        assert(crate::page::voxel_octant(x, y, z) == c);
        assert(solid(voxels, x, y, z));
    }
    assert forall|c: int| 0 <= c < 8 implies #[trigger] bit_of(s.xmask, c) by {
        assert(solid(voxels, c, 0, 0));
    }
    assert forall|c: int| 0 <= c < 8 implies #[trigger] bit_of(s.ymask, c) by {
        assert(solid(voxels, 0, c, 0));
    }
    assert forall|c: int| 0 <= c < 8 implies #[trigger] bit_of(s.zmask, c) by {
        assert(solid(voxels, 0, 0, c));
    }
    lemma_all_bits(s.full);
    lemma_all_bits(s.occupied);
    lemma_all_bits(s.xmask);
    lemma_all_bits(s.ymask);
    lemma_all_bits(s.zmask);
    lemma_mask_box_is_union_of_corner_cubes(0xff);
    lemma_mask_box_small(0xff);
    assert forall|c: u8| c < 8 implies corner_set(0xff, c) by {
        assert((0xffu8 >> c) & 1u8 == 1u8) by (bit_vector)
            requires
                c < 8,
        ;
    }
    assert(corner_cube(0).x == 0 && corner_cube(0).y == 0 && corner_cube(0).z == 0) by {
        assert((0u8 & 1u8) == 0u8 && ((0u8 >> 1u8) & 1u8) == 0u8 && ((0u8 >> 2u8) & 1u8) == 0u8)
            by (bit_vector);
    }
    assert(corner_cube(7).u == 2 && corner_cube(7).v == 2 && corner_cube(7).w == 2) by {
        assert((7u8 & 1u8) == 1u8 && ((7u8 >> 1u8) & 1u8) == 1u8 && ((7u8 >> 2u8) & 1u8) == 1u8)
            by (bit_vector);
    }
    assert(holds(mask_box(0xff), corner_cube(0)));
    assert(holds(mask_box(0xff), corner_cube(7)));
    assert((0xffu8 >> 0u8) & 1u8 == 1u8 && (0xffu8 >> 7u8) & 1u8 == 1u8) by (bit_vector);
    assert(low_bit(0xff, 0) == 0);
    assert(high_end(0xff, 8) == 8);
}

proof fn lemma_all_bits(m: u8)
    requires
        forall|c: int| 0 <= c < 8 ==> #[trigger] bit_of(m, c),
    ensures
        m == 0xff,
{
    assert(bit_of(m, 0) && bit_of(m, 1) && bit_of(m, 2) && bit_of(m, 3));
    assert(bit_of(m, 4) && bit_of(m, 5) && bit_of(m, 6) && bit_of(m, 7));
    assert(m == 0xff) by (bit_vector)
        requires
            (m >> 0u8) & 1u8 == 1u8,
            (m >> 1u8) & 1u8 == 1u8,
            (m >> 2u8) & 1u8 == 1u8,
            (m >> 3u8) & 1u8 == 1u8,
            (m >> 4u8) & 1u8 == 1u8,
            (m >> 5u8) & 1u8 == 1u8,
            (m >> 6u8) & 1u8 == 1u8,
            (m >> 7u8) & 1u8 == 1u8,
    ;
}

} // verus!

verus! {

/// The page next to `pos` across its +x face.
pub open spec fn next_along_x(pos: UVec3) -> UVec3 {
    UVec3 { x: (pos.x + 1) as u32, ..pos }
}

/// No voxel of the page's x == 0 layer is solid.
pub open spec fn low_x_layer_empty(voxels: [u8; 64]) -> bool {
    forall|r: int| 0 <= r < 64 ==> #[trigger] voxels@[r] & 1u8 == 0
}

/// Where a fully solid page meets, across its +x face, a page whose x == 0
/// layer is empty, exactly one quad lies on the shared plane: the solid page's
/// whole 8x8 face. The other page shows nothing there: whatever it draws lies
/// at x >= 1 in its own coordinates.
pub proof fn lemma_shared_face_shows_once(map: Array3D2P<OctreeBoxEntry>, a: UVec3)
    requires
        map.well_formed(),
        map.contains(a),
        a.x + 1 < map.size,
        forall|r: int| 0 <= r < 64 ==> #[trigger] map.at(a).voxels@[r] == 0xff,
        low_x_layer_empty(map.at(next_along_x(a)).voxels),
    ensures
        ({
            let (fa, pa) = page_exposure(map, a);
            &&& render_box(map, a, fa, pa) is Some
            &&& render_box(map, a, fa, pa).unwrap().0 == (BoundingBox { x: 0, y: 0, z: 0, u: 8, v: 8, w: 8 })
            &&& render_box(map, a, fa, pa).unwrap().1[1] == seq![extent_of(0, 0, 8, 8)]
        }),
        ({
            let b = next_along_x(a);
            let (fb, pb) = page_exposure(map, b);
            render_box(map, b, fb, pb) matches Some(r) ==> r.0.x >= 1
        }),
{
    let b = next_along_x(a);
    let va = map.at(a).voxels;
    let vb = map.at(b).voxels;
    lemma_full_page(va);
    let sb = page_summary(vb);
    lemma_page_summary_meaning(vb);
    // the x == 0 layer of `b` is empty
    assert forall|y: int, z: int| 0 <= y < 8 && 0 <= z < 8 implies !#[trigger] solid(vb, 0, y, z) by {
        let byte = vb@[z * 8 + y];
        assert(byte & 1u8 == 0);
        assert((byte >> 0u8) & 1u8 != 1u8) by (bit_vector)
            requires
                byte & 1u8 == 0,
        ;
    }
    // so no octant of `b` touching its -x face is full
    assert forall|k: int| 0 <= k < 4 implies !octant_bit(sb.full, #[trigger] face_octant(0, k)) by {
        let c = face_octant(0, k) as int;
        let (y, z) = (4 * (k % 2), 4 * (k / 2));
        assert(crate::page::voxel_octant(0, y, z) == c);
        assert(!solid(vb, 0, y, z));
        assert(!crate::page::octant_all_solid(vb, c));
        assert(bit_of(sb.full, c) <==> crate::page::octant_all_solid(vb, c));
        assert(bit_of(sb.full, c) == octant_bit(sb.full, face_octant(0, k)));
    }
    // the exposure of `a` across +x
    let e1 = exposure_upto(map, a, 1);
    let e2 = exposure_upto(map, a, 2);
    assert(neighbour_pos(map.size, a, 1) == Some(b));
    reveal_with_fuel(exposure_upto, 2);
    assert(!has_face(e1.1, 1)) by {
        assert(((0u8 >> 1u8) & 1u8 != 1u8) && ((1u8 >> 1u8) & 1u8 != 1u8) && ((0u8 | (1u8 << 0u8))
            >> 1u8) & 1u8 != 1u8) by (bit_vector);
    }
    crate::page::lemma_bit_or_single(e1.0, 1, 1);
    crate::page::lemma_bit_or_single(e1.1, 1, 1);
    assert(!face_full(sb.full, 0));
    assert(has_face(e2.0, 1));
    assert(sb.occupied == 0 ==> !has_face(e2.1, 1));
    assert(sb.occupied != 0 ==> has_face(e2.1, 1));
    lemma_exposure_bit_settled(map, a, 1, 6);
    let (fa, pa) = page_exposure(map, a);
    let box_a = BoundingBox { x: 0, y: 0, z: 0, u: 8, v: 8, w: 8 };
    let cand = face_rect(box_a, 1);
    assert(cand == (0int, 0int, 8int, 8int));
    assert(neighbour_full(map, a, 1) == Some(sb.full));
    if sb.occupied != 0 {
        assert forall|k: int|
            0 <= k < 4 && #[trigger] rect_meet(cand, quadrant(k)) is Some implies !octant_bit(
            sb.full,
            face_octant(0, k),
        ) by {}
        lemma_visible_whole(cand, sb.full, 0);
        assert(extents_of(seq![cand]) =~= seq![extent_of(0, 0, 8, 8)]);
    }
    let fs = box_faces(map, a, fa, pa, box_a);
    assert(fs[1] == seq![extent_of(0, 0, 8, 8)]);
    assert((0u8 >> 1u8) & 1u8 != 1u8) by (bit_vector);
    assert(has_face(fa, 1));
    assert(fa != NONE);
    assert(page_summary(va).occupied != 0);
    assert(fs[1].len() == 1);
    assert(render_box(map, a, fa, pa) == Some((box_a, fs)));
    // `b` draws nothing on its x == 0 plane
    let (fb, pb) = page_exposure(map, b);
    if render_box(map, b, fb, pb) is Some {
        assert(!crate::page::column_has_solid(vb, 0));
        assert(!bit_of(sb.xmask, 0));
        lemma_low_bit_at_least(sb.xmask, 1);
        lemma_low_bit_bounded(sb.xmask, 1);
        assert(low_bit(sb.xmask, 0) == low_bit(sb.xmask, 1));
        assert(tight_box(sb).x >= 1);
    }
}

} // verus!
