use vstd::prelude::*;

use crate::types::UVec3;

verus! {

/// An axis-aligned box in page-local coordinates: `(x, y, z)` is the low
/// corner, `(u, v, w)` the high corner (exclusive).
#[derive(Clone, Copy, Debug, PartialEq, Eq, Structural)]
pub struct BoundingBox {
    pub x: u8,
    pub y: u8,
    pub z: u8,
    pub u: u8,
    pub v: u8,
    pub w: u8,
}

pub open spec fn min_u8(a: u8, b: u8) -> u8 {
    if a <= b { a } else { b }
}

pub open spec fn max_u8(a: u8, b: u8) -> u8 {
    if a >= b { a } else { b }
}

impl BoundingBox {
    /// The smallest box holding both boxes.
    pub open spec fn spec_union(self, o: BoundingBox) -> BoundingBox {
        BoundingBox {
            x: min_u8(self.x, o.x),
            y: min_u8(self.y, o.y),
            z: min_u8(self.z, o.z),
            u: max_u8(self.u, o.u),
            v: max_u8(self.v, o.v),
            w: max_u8(self.w, o.w),
        }
    }

    /// The overlap of both boxes (possibly empty).
    pub open spec fn spec_intersection(self, o: BoundingBox) -> BoundingBox {
        BoundingBox {
            x: max_u8(self.x, o.x),
            y: max_u8(self.y, o.y),
            z: max_u8(self.z, o.z),
            u: min_u8(self.u, o.u),
            v: min_u8(self.v, o.v),
            w: min_u8(self.w, o.w),
        }
    }

    /// A box is empty when some axis has no extent.
    pub open spec fn is_empty(self) -> bool {
        self.u <= self.x || self.v <= self.y || self.w <= self.z
    }

    /// The box starting at `start` with extent `ext` on each axis.
    pub fn new(start: UVec3, ext: UVec3) -> (r: BoundingBox)
        requires
            start.x + ext.x <= 255,
            start.y + ext.y <= 255,
            start.z + ext.z <= 255,
        ensures
            r.x == start.x,
            r.y == start.y,
            r.z == start.z,
            r.u == start.x + ext.x,
            r.v == start.y + ext.y,
            r.w == start.z + ext.z,
    {
        let x = start.x as u8;
        let y = start.y as u8;
        let z = start.z as u8;
        BoundingBox { x, y, z, u: x + ext.x as u8, v: y + ext.y as u8, w: z + ext.z as u8 }
    }

    pub fn union(self, other: BoundingBox) -> (r: BoundingBox)
        ensures
            r == self.spec_union(other),
    {
        BoundingBox {
            x: if self.x <= other.x { self.x } else { other.x },
            y: if self.y <= other.y { self.y } else { other.y },
            z: if self.z <= other.z { self.z } else { other.z },
            u: if self.u >= other.u { self.u } else { other.u },
            v: if self.v >= other.v { self.v } else { other.v },
            w: if self.w >= other.w { self.w } else { other.w },
        }
    }

    pub fn intersection(self, other: BoundingBox) -> (r: BoundingBox)
        ensures
            r == self.spec_intersection(other),
    {
        BoundingBox {
            x: if self.x >= other.x { self.x } else { other.x },
            y: if self.y >= other.y { self.y } else { other.y },
            z: if self.z >= other.z { self.z } else { other.z },
            u: if self.u <= other.u { self.u } else { other.u },
            v: if self.v <= other.v { self.v } else { other.v },
            w: if self.w <= other.w { self.w } else { other.w },
        }
    }

    /// True when the box encloses no volume.
    pub fn zero(&self) -> (r: bool)
        ensures
            r == self.is_empty(),
    {
        self.u <= self.x || self.v <= self.y || self.w <= self.z
    }
}

/// Whether corner `c` (bit 0: x, bit 1: y, bit 2: z) is set in `mask`.
pub open spec fn corner_set(mask: u8, c: u8) -> bool {
    (mask >> c) & 1u8 == 1u8
}

/// The unit cube at corner `c` of the 2x2x2 corner grid.
pub open spec fn corner_cube(c: u8) -> BoundingBox {
    let cx = c & 1u8;
    let cy = (c >> 1u8) & 1u8;
    let cz = (c >> 2u8) & 1u8;
    BoundingBox { x: cx, y: cy, z: cz, u: (cx + 1) as u8, v: (cy + 1) as u8, w: (cz + 1) as u8 }
}

/// The union of the unit cubes of the corners below `k` that are set in `mask`.
pub open spec fn corner_union(mask: u8, k: nat) -> Option<BoundingBox>
    decreases k,
{
    if k == 0 {
        None
    } else {
        let prev = corner_union(mask, (k - 1) as nat);
        let c = (k - 1) as u8;
        if corner_set(mask, c) {
            match prev {
                None => Some(corner_cube(c)),
                Some(b) => Some(b.spec_union(corner_cube(c))),
            }
        } else {
            prev
        }
    }
}

/// The table entry of an occupancy mask: the union of the unit cubes of its set
/// corners, which for the empty mask is the empty box at the origin.
pub open spec fn mask_box(mask: u8) -> BoundingBox {
    match corner_union(mask, 8) {
        Some(b) => b,
        None => BoundingBox { x: 0, y: 0, z: 0, u: 0, v: 0, w: 0 },
    }
}

/// Every coordinate of the box lies in the 2x2x2 corner grid.
pub open spec fn within_corner_grid(b: BoundingBox) -> bool {
    b.x <= 2 && b.y <= 2 && b.z <= 2 && b.u <= 2 && b.v <= 2 && b.w <= 2
}

proof fn lemma_corner_union_small(mask: u8, k: nat)
    ensures
        corner_union(mask, k) matches Some(b) ==> within_corner_grid(b),
    decreases k,
{
    if k > 0 {
        lemma_corner_union_small(mask, (k - 1) as nat);
        let c = (k - 1) as u8;
        assert((c & 1u8) <= 1u8 && ((c >> 1u8) & 1u8) <= 1u8 && ((c >> 2u8) & 1u8) <= 1u8)
            by (bit_vector);
    }
}

/// Every table entry lies in the 2x2x2 corner grid.
pub proof fn lemma_mask_box_small(mask: u8)
    ensures
        within_corner_grid(mask_box(mask)),
{
    lemma_corner_union_small(mask, 8);
}

fn corner_box(c: u8) -> (r: BoundingBox)
    requires
        c < 8,
    ensures
        r == corner_cube(c),
{
    let cx = c & 1u8;
    let cy = (c >> 1u8) & 1u8;
    let cz = (c >> 2u8) & 1u8;
    assert(cx <= 1 && cy <= 1 && cz <= 1) by (bit_vector)
        requires
            cx == c & 1u8,
            cy == (c >> 1u8) & 1u8,
            cz == (c >> 2u8) & 1u8,
    ;
    BoundingBox::new(UVec3::new(cx as u32, cy as u32, cz as u32), UVec3::new(1, 1, 1))
}

/// Builds the 256-entry table from a corner-occupancy mask to the box that
/// encloses its set corners.
pub fn generate_bounding_box_mask_lookup_table() -> (table: Vec<BoundingBox>)
    ensures
        table@.len() == 256,
        forall|m: int| 0 <= m < 256 ==> #[trigger] table@[m] == mask_box(m as u8),
{
    let mut table: Vec<BoundingBox> = Vec::with_capacity(256);
    let mut i: u32 = 0;
    while i < 256
        invariant
            i <= 256,
            table@.len() == i,
            forall|m: int| 0 <= m < i ==> #[trigger] table@[m] == mask_box(m as u8),
        decreases 256 - i,
    {
        let mask = i as u8;
        let mut aabb: Option<BoundingBox> = None;
        let mut c: u8 = 0;
        while c < 8
            invariant
                c <= 8,
                aabb == corner_union(mask, c as nat),
            decreases 8 - c,
        {
            if (mask >> c) & 1u8 == 1u8 {
                let b = corner_box(c);
                aabb = match aabb {
                    None => Some(b),
                    Some(prev) => Some(prev.union(b)),
                };
            }
            c = c + 1;
        }
        let entry = match aabb {
            Some(b) => b,
            None => BoundingBox::new(UVec3::new(0, 0, 0), UVec3::new(0, 0, 0)),
        };
        table.push(entry);
        i = i + 1;
    }
    table
}


/// Box `b` holds box `c`.
pub open spec fn holds(b: BoundingBox, c: BoundingBox) -> bool {
    b.x <= c.x && b.y <= c.y && b.z <= c.z && c.u <= b.u && c.v <= b.v && c.w <= b.w
}

/// `b` holds the cube of every corner below `k` set in `mask`.
pub open spec fn holds_set_cubes(mask: u8, k: nat, b: BoundingBox) -> bool {
    forall|c: u8| c < k && corner_set(mask, c) ==> holds(b, #[trigger] corner_cube(c))
}

/// Each of the six faces of `b` lies on the cube of some corner below `k` set
/// in `mask`.
pub open spec fn touches_set_cubes(mask: u8, k: nat, b: BoundingBox) -> bool {
    &&& exists|c: u8| c < k && corner_set(mask, c) && (#[trigger] corner_cube(c)).x == b.x
    &&& exists|c: u8| c < k && corner_set(mask, c) && (#[trigger] corner_cube(c)).y == b.y
    &&& exists|c: u8| c < k && corner_set(mask, c) && (#[trigger] corner_cube(c)).z == b.z
    &&& exists|c: u8| c < k && corner_set(mask, c) && (#[trigger] corner_cube(c)).u == b.u
    &&& exists|c: u8| c < k && corner_set(mask, c) && (#[trigger] corner_cube(c)).v == b.v
    &&& exists|c: u8| c < k && corner_set(mask, c) && (#[trigger] corner_cube(c)).w == b.w
}

proof fn lemma_corner_union_tight(mask: u8, k: nat)
    requires
        k <= 8,
    ensures
        corner_union(mask, k) matches Some(b) ==> holds_set_cubes(mask, k, b) && touches_set_cubes(
            mask,
            k,
            b,
        ),
        corner_union(mask, k) is None ==> forall|c: u8| c < k ==> !corner_set(mask, c),
    decreases k,
{
    if k > 0 {
        lemma_corner_union_tight(mask, (k - 1) as nat);
        let c = (k - 1) as u8;
        let cube = corner_cube(c);
        if corner_set(mask, c) {
            match corner_union(mask, (k - 1) as nat) {
                None => {
                    assert(touches_set_cubes(mask, k, cube));
                },
                Some(b) => {
                    let n = b.spec_union(cube);
                    let wx = choose|d: u8| d < k - 1 && corner_set(mask, d) && (#[trigger] corner_cube(d)).x == b.x;
                    let wy = choose|d: u8| d < k - 1 && corner_set(mask, d) && (#[trigger] corner_cube(d)).y == b.y;
                    let wz = choose|d: u8| d < k - 1 && corner_set(mask, d) && (#[trigger] corner_cube(d)).z == b.z;
                    let wu = choose|d: u8| d < k - 1 && corner_set(mask, d) && (#[trigger] corner_cube(d)).u == b.u;
                    let wv = choose|d: u8| d < k - 1 && corner_set(mask, d) && (#[trigger] corner_cube(d)).v == b.v;
                    let ww = choose|d: u8| d < k - 1 && corner_set(mask, d) && (#[trigger] corner_cube(d)).w == b.w;
                    let ax = if b.x <= cube.x { wx } else { c };
                    let ay = if b.y <= cube.y { wy } else { c };
                    let az = if b.z <= cube.z { wz } else { c };
                    let au = if b.u >= cube.u { wu } else { c };
                    let av = if b.v >= cube.v { wv } else { c };
                    let aw = if b.w >= cube.w { ww } else { c };
                    assert(corner_cube(ax).x == n.x);
                    assert(corner_cube(ay).y == n.y);
                    assert(corner_cube(az).z == n.z);
                    assert(corner_cube(au).u == n.u);
                    assert(corner_cube(av).v == n.v);
                    assert(corner_cube(aw).w == n.w);
                    assert(holds_set_cubes(mask, k, n)) by {
                        assert forall|d: u8| d < k && corner_set(mask, d) implies holds(
                            n,
                            #[trigger] corner_cube(d),
                        ) by {
                            if d < k - 1 {
                                assert(holds(b, corner_cube(d)));
                            }
                        }
                    }
                },
            }
        } else {
            match corner_union(mask, (k - 1) as nat) {
                None => {},
                Some(b) => {
                    let wx = choose|d: u8| d < k - 1 && corner_set(mask, d) && (#[trigger] corner_cube(d)).x == b.x;
                    let wy = choose|d: u8| d < k - 1 && corner_set(mask, d) && (#[trigger] corner_cube(d)).y == b.y;
                    let wz = choose|d: u8| d < k - 1 && corner_set(mask, d) && (#[trigger] corner_cube(d)).z == b.z;
                    let wu = choose|d: u8| d < k - 1 && corner_set(mask, d) && (#[trigger] corner_cube(d)).u == b.u;
                    let wv = choose|d: u8| d < k - 1 && corner_set(mask, d) && (#[trigger] corner_cube(d)).v == b.v;
                    let ww = choose|d: u8| d < k - 1 && corner_set(mask, d) && (#[trigger] corner_cube(d)).w == b.w;
                    assert(corner_cube(wx).x == b.x);
                    assert(corner_cube(wy).y == b.y);
                    assert(corner_cube(wz).z == b.z);
                    assert(corner_cube(wu).u == b.u);
                    assert(corner_cube(wv).v == b.v);
                    assert(corner_cube(ww).w == b.w);
                },
            }
        }
    }
}

/// For every occupancy mask, the table entry is the union of the unit cubes of
/// the set corners: for a non-empty mask, the smallest box holding each of them
/// (each of its faces lies on one of them); for the empty mask, an empty box.
pub proof fn lemma_mask_box_is_union_of_corner_cubes(mask: u8)
    ensures
        mask == 0 ==> mask_box(mask).is_empty(),
        mask != 0 ==> holds_set_cubes(mask, 8, mask_box(mask)),
        mask != 0 ==> touches_set_cubes(mask, 8, mask_box(mask)),
{
    lemma_corner_union_tight(mask, 8);
    if mask == 0 {
        assert forall|c: u8| c < 8 implies !corner_set(mask, c) by {
            assert((0u8 >> c) & 1u8 == 0u8) by (bit_vector);
        }
        if let Some(b) = corner_union(mask, 8) {
            let w = choose|d: u8| d < 8 && corner_set(mask, d) && (#[trigger] corner_cube(d)).x == b.x;
        }
    } else if corner_union(mask, 8) is None {
        assert(!corner_set(mask, 0) && !corner_set(mask, 1) && !corner_set(mask, 2) && !corner_set(
            mask,
            3,
        ) && !corner_set(mask, 4) && !corner_set(mask, 5) && !corner_set(mask, 6) && !corner_set(
            mask,
            7,
        ));
        assert(false) by (bit_vector)
            requires
                mask != 0,
                (mask >> 0u8) & 1u8 != 1u8,
                (mask >> 1u8) & 1u8 != 1u8,
                (mask >> 2u8) & 1u8 != 1u8,
                (mask >> 3u8) & 1u8 != 1u8,
                (mask >> 4u8) & 1u8 != 1u8,
                (mask >> 5u8) & 1u8 != 1u8,
                (mask >> 6u8) & 1u8 != 1u8,
                (mask >> 7u8) & 1u8 != 1u8,
        ;
    }
}

} // verus!

verus! {

proof fn lemma_corner_set_or(i: u8, j: u8, c: u8)
    requires
        c < 8,
    ensures
        corner_set(i | j, c) <==> (corner_set(i, c) || corner_set(j, c)),
{
    assert(((i | j) >> c) & 1u8 == 1u8 <==> ((i >> c) & 1u8 == 1u8 || (j >> c) & 1u8 == 1u8))
        by (bit_vector)
        requires
            c < 8,
    ;
}

/// The entry of the union of two non-empty masks is the union of their
/// entries; so the entry of a mask holds the entry of each of its sub-masks.
#[verifier::rlimit(100)]
pub proof fn lemma_mask_box_union(i: u8, j: u8)
    requires
        i != 0,
        j != 0,
    ensures
        mask_box(i | j) == mask_box(i).spec_union(mask_box(j)),
        i & j == i ==> holds(mask_box(j), mask_box(i)),
{
    assert((i | j) != 0) by (bit_vector)
        requires
            i != 0,
    ;
    lemma_mask_box_is_union_of_corner_cubes(i);
    lemma_mask_box_is_union_of_corner_cubes(j);
    lemma_mask_box_is_union_of_corner_cubes(i | j);
    let a = mask_box(i);
    let b = mask_box(j);
    let u = mask_box(i | j);
    let n = a.spec_union(b);
    assert forall|c: u8| c < 8 implies (corner_set(i | j, c) <==> (corner_set(i, c) || corner_set(
        j,
        c,
    ))) by {
        lemma_corner_set_or(i, j, c);
    }
    // each bound of `u` lies on a set corner of `i` or of `j`, and each bound of
    // `a` and of `b` lies on a set corner of `i | j`
    let ux = choose|d: u8| d < 8 && corner_set(i | j, d) && (#[trigger] corner_cube(d)).x == u.x;
    let uy = choose|d: u8| d < 8 && corner_set(i | j, d) && (#[trigger] corner_cube(d)).y == u.y;
    let uz = choose|d: u8| d < 8 && corner_set(i | j, d) && (#[trigger] corner_cube(d)).z == u.z;
    let uu = choose|d: u8| d < 8 && corner_set(i | j, d) && (#[trigger] corner_cube(d)).u == u.u;
    let uv = choose|d: u8| d < 8 && corner_set(i | j, d) && (#[trigger] corner_cube(d)).v == u.v;
    let uw = choose|d: u8| d < 8 && corner_set(i | j, d) && (#[trigger] corner_cube(d)).w == u.w;
    assert(holds(a, corner_cube(ux)) || holds(b, corner_cube(ux)));
    assert(holds(a, corner_cube(uy)) || holds(b, corner_cube(uy)));
    assert(holds(a, corner_cube(uz)) || holds(b, corner_cube(uz)));
    assert(holds(a, corner_cube(uu)) || holds(b, corner_cube(uu)));
    assert(holds(a, corner_cube(uv)) || holds(b, corner_cube(uv)));
    assert(holds(a, corner_cube(uw)) || holds(b, corner_cube(uw)));
    let ax = choose|d: u8| d < 8 && corner_set(i, d) && (#[trigger] corner_cube(d)).x == a.x;
    let ay = choose|d: u8| d < 8 && corner_set(i, d) && (#[trigger] corner_cube(d)).y == a.y;
    let az = choose|d: u8| d < 8 && corner_set(i, d) && (#[trigger] corner_cube(d)).z == a.z;
    let au = choose|d: u8| d < 8 && corner_set(i, d) && (#[trigger] corner_cube(d)).u == a.u;
    let av = choose|d: u8| d < 8 && corner_set(i, d) && (#[trigger] corner_cube(d)).v == a.v;
    let aw = choose|d: u8| d < 8 && corner_set(i, d) && (#[trigger] corner_cube(d)).w == a.w;
    let bx = choose|d: u8| d < 8 && corner_set(j, d) && (#[trigger] corner_cube(d)).x == b.x;
    let by = choose|d: u8| d < 8 && corner_set(j, d) && (#[trigger] corner_cube(d)).y == b.y;
    let bz = choose|d: u8| d < 8 && corner_set(j, d) && (#[trigger] corner_cube(d)).z == b.z;
    let bu = choose|d: u8| d < 8 && corner_set(j, d) && (#[trigger] corner_cube(d)).u == b.u;
    let bv = choose|d: u8| d < 8 && corner_set(j, d) && (#[trigger] corner_cube(d)).v == b.v;
    let bw = choose|d: u8| d < 8 && corner_set(j, d) && (#[trigger] corner_cube(d)).w == b.w;
    assert(holds(u, corner_cube(ax)) && holds(u, corner_cube(ay)) && holds(u, corner_cube(az)));
    assert(holds(u, corner_cube(au)) && holds(u, corner_cube(av)) && holds(u, corner_cube(aw)));
    assert(holds(u, corner_cube(bx)) && holds(u, corner_cube(by)) && holds(u, corner_cube(bz)));
    assert(holds(u, corner_cube(bu)) && holds(u, corner_cube(bv)) && holds(u, corner_cube(bw)));
    assert(u == n);
    if i & j == i {
        assert((i | j) == j) by (bit_vector)
            requires
                i & j == i,
        ;
    }
}

} // verus!
