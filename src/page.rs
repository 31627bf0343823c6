//! Voxel pages: 8x8x8 blocks of occupancy bits, and the cubic map that holds them.
use vstd::prelude::*;

use crate::builder::{level_span, span};
use crate::grid::{grid_cells, grid_extents, VoxelGrid, MAX_GRID_EXTENT};
use crate::types::{OctreeError, UVec3};

verus! {

/// One page of the mesher's map: which of its 8x8x8 voxels are solid, and the
/// material they are made of. Byte `z * 8 + y` of `voxels` holds the row at
/// `(y, z)`, with bit `x` set when voxel `(x, y, z)` is solid.
#[derive(Clone, Copy, Debug)]
pub struct OctreeBoxEntry {
    pub voxels: [u8; 64],
    pub material: u16,
}

/// Whether voxel `(x, y, z)` of a page is solid.
pub open spec fn solid(voxels: [u8; 64], x: int, y: int, z: int) -> bool {
    (voxels@[z * 8 + y] >> (x as u8)) & 1u8 == 1u8
}

/// What the mesher needs to know of a page, gathered row by row.
#[derive(Clone, Copy, Debug, PartialEq, Eq, Structural)]
pub struct PageSummary {
    /// Bit `c` set when the 4x4x4 octant `c` holds a solid voxel.
    pub occupied: u8,
    /// Bit `c` set when every voxel of the 4x4x4 octant `c` is solid.
    pub full: u8,
    /// Bit `x` set when some voxel with that x is solid.
    pub xmask: u8,
    /// Bit `y` set when some voxel with that y is solid.
    pub ymask: u8,
    /// Bit `z` set when some voxel with that z is solid.
    pub zmask: u8,
    /// Bit `r` set when row `r` holds a solid voxel, that is uses the material.
    pub rows: u64,
}

/// The octant of the low (`half == 0`) or high half in x of row `r`.
pub open spec fn row_octant(r: int, half: int) -> u8 {
    (half + 2 * ((r % 8) / 4) + 4 * ((r / 8) / 4)) as u8
}

/// The summary after the first `n` rows.
pub open spec fn summary_upto(voxels: [u8; 64], n: nat) -> PageSummary
    decreases n,
{
    if n == 0 {
        PageSummary { occupied: 0, full: 0xff, xmask: 0, ymask: 0, zmask: 0, rows: 0 }
    } else {
        let s = summary_upto(voxels, (n - 1) as nat);
        let r = n - 1;
        let b = voxels@[r];
        let lo = 1u8 << row_octant(r, 0);
        let hi = 1u8 << row_octant(r, 1);
        let occupied = s.occupied | (if b & 0x0f != 0 { lo } else { 0 }) | (if b & 0xf0 != 0 {
            hi
        } else {
            0
        });
        let full = s.full & (if b & 0x0f != 0x0f { !lo } else { 0xff }) & (if b & 0xf0 != 0xf0 {
            !hi
        } else {
            0xff
        });
        PageSummary {
            occupied,
            full,
            xmask: s.xmask | b,
            ymask: if b != 0 { s.ymask | (1u8 << ((r % 8) as u8)) } else { s.ymask },
            zmask: if b != 0 { s.zmask | (1u8 << ((r / 8) as u8)) } else { s.zmask },
            rows: if b != 0 { s.rows | (1u64 << (r as u64)) } else { s.rows },
        }
    }
}

pub open spec fn page_summary(voxels: [u8; 64]) -> PageSummary {
    summary_upto(voxels, 64)
}

/// Reads a page once and gathers its octant, axis and row masks.
pub fn summarize_page(voxels: &[u8; 64]) -> (r: PageSummary)
    ensures
        r == page_summary(*voxels),
        forall|c: int| 0 <= c < 8 ==> (#[trigger] bit_of(r.occupied, c) <==> octant_has_solid(*voxels, c)),
        forall|c: int| 0 <= c < 8 ==> (#[trigger] bit_of(r.full, c) <==> octant_all_solid(*voxels, c)),
        forall|x: int| 0 <= x < 8 ==> (#[trigger] bit_of(r.xmask, x) <==> column_has_solid(*voxels, x)),
        forall|y: int| 0 <= y < 8 ==> (#[trigger] bit_of(r.ymask, y) <==> layer_y_has_solid(*voxels, y)),
        forall|z: int| 0 <= z < 8 ==> (#[trigger] bit_of(r.zmask, z) <==> layer_z_has_solid(*voxels, z)),
        forall|i: int| 0 <= i < 64 ==> (#[trigger] bit64_of(r.rows, i) <==> voxels@[i] != 0),
{
    let mut s = PageSummary { occupied: 0, full: 0xff, xmask: 0, ymask: 0, zmask: 0, rows: 0 };
    let mut r: usize = 0;
    while r < 64
        invariant
            r <= 64,
            s == summary_upto(*voxels, r as nat),
        decreases 64 - r,
    {
        let b = voxels[r];
        let lo: u8 = 1u8 << ((2 * ((r % 8) / 4) + 4 * ((r / 8) / 4)) as u8);
        let hi: u8 = 1u8 << ((1 + 2 * ((r % 8) / 4) + 4 * ((r / 8) / 4)) as u8);
        let ghost prev = s;
        assert(lo == 1u8 << row_octant(r as int, 0));
        assert(hi == 1u8 << row_octant(r as int, 1));
        assert(((r % 8) as u8) == ((r as int % 8) as u8));
        assert(((r / 8) as u8) == ((r as int / 8) as u8));
        s.occupied = s.occupied | (if b & 0x0f != 0 { lo } else { 0 }) | (if b & 0xf0 != 0 {
            hi
        } else {
            0
        });
        s.full = s.full & (if b & 0x0f != 0x0f { !lo } else { 0xff }) & (if b & 0xf0 != 0xf0 {
            !hi
        } else {
            0xff
        });
        s.xmask = s.xmask | b;
        if b != 0 {
            s.ymask = s.ymask | (1u8 << ((r % 8) as u8));
            s.zmask = s.zmask | (1u8 << ((r / 8) as u8));
            s.rows = s.rows | (1u64 << (r as u64));
        }
        proof {
            let t = summary_upto(*voxels, (r + 1) as nat);
            assert(t.occupied == s.occupied);
            assert(t.full == s.full);
            assert(t.xmask == s.xmask);
            assert(t.ymask == s.ymask);
            assert(t.zmask == s.zmask);
            assert(t.rows == s.rows);
        }
        r = r + 1;
    }
    proof {
        lemma_page_summary_meaning(*voxels);
        lemma_page_summary_rows_meaning(*voxels);
        assert forall|c: int| 0 <= c < 8 implies (#[trigger] bit_of(s.occupied, c) <==> octant_has_solid(
            *voxels,
            c,
        )) && (bit_of(s.full, c) <==> octant_all_solid(*voxels, c)) by {
            assert(bit_of(page_summary(*voxels).occupied, c) <==> octant_has_solid(*voxels, c));
            assert(bit_of(page_summary(*voxels).full, c) <==> octant_all_solid(*voxels, c));
        }
    }
    s
}

/// Index of `(x, y, z)` in a cube of edge `size` stored x fastest.
pub open spec fn cube_index(size: int, x: int, y: int, z: int) -> int {
    (z * size + y) * size + x
}

proof fn lemma_cube_index_bounds(size: int, x: int, y: int, z: int)
    requires
        0 <= x < size,
        0 <= y < size,
        0 <= z < size,
    ensures
        0 <= cube_index(size, x, y, z) < size * size * size,
{
    assert(0 <= (z * size + y) * size + x < size * size * size) by (nonlinear_arith)
        requires
            0 <= x < size,
            0 <= y < size,
            0 <= z < size,
    ;
}

/// The page with index `n`: x fastest, then y, then z.
pub open spec fn page_at_index(size: u32, n: int) -> UVec3 {
    UVec3 {
        x: (n % (size as int)) as u32,
        y: ((n / (size as int)) % (size as int)) as u32,
        z: (n / (size * size)) as u32,
    }
}

pub proof fn lemma_page_at_index_inside(size: u32, n: int)
    requires
        1 <= size <= 32,
        0 <= n < size * size * size,
    ensures
        page_at_index(size, n).x < size,
        page_at_index(size, n).y < size,
        page_at_index(size, n).z < size,
{
    let s = size as int;
    let d = s * s;
    assert(d > 0) by (nonlinear_arith)
        requires
            s >= 1,
            d == s * s,
    ;
    let q = n / d;
    vstd::arithmetic::div_mod::lemma_fundamental_div_mod(n, d);
    assert(q < s) by (nonlinear_arith)
        requires
            n == d * q + n % d,
            0 <= n % d,
            n < d * s,
            d > 0,
    ;
    assert(0 <= q) by (nonlinear_arith)
        requires
            n >= 0,
            d > 0,
            q == n / d,
    ;
}

/// The index of a position in the cube gives back that position.
pub proof fn lemma_page_at_cube_index(size: u32, pos: UVec3)
    requires
        1 <= size <= 32,
        pos.x < size && pos.y < size && pos.z < size,
    ensures
        page_at_index(size, cube_index(size as int, pos.x as int, pos.y as int, pos.z as int)) == pos,
{
    let s = size as int;
    let (x, y, z) = (pos.x as int, pos.y as int, pos.z as int);
    let n = (z * s + y) * s + x;
    vstd::arithmetic::div_mod::lemma_fundamental_div_mod_converse(n, s, z * s + y, x);
    vstd::arithmetic::div_mod::lemma_fundamental_div_mod_converse(z * s + y, s, z, y);
    assert(n == z * (s * s) + (y * s + x)) by (nonlinear_arith)
        requires
            n == (z * s + y) * s + x,
    ;
    assert(0 <= y * s + x < s * s) by (nonlinear_arith)
        requires
            0 <= x < s,
            0 <= y < s,
    ;
    vstd::arithmetic::div_mod::lemma_fundamental_div_mod_converse(n, s * s, z, y * s + x);
}

/// Largest edge of a page map, in pages: the far face of its last page lies at
/// voxel 128, which a quad's `u8` origin still holds.
pub const MAX_MAP_SIZE: u32 = 16;

/// A cube of `T` whose edge is a power of two.
pub struct Array3D2P<T> {
    pub data: Vec<T>,
    pub size: u32,
    pub size_power: u32,
}

impl<T: Copy> Array3D2P<T> {
    pub open spec fn well_formed(&self) -> bool {
        &&& self.size_power <= 4
        &&& self.size == span(self.size_power as nat)
        &&& self.size <= MAX_MAP_SIZE
        &&& self.data@.len() == self.size * self.size * self.size
    }

    /// The coordinate lies inside the cube.
    pub open spec fn contains(&self, pos: UVec3) -> bool {
        pos.x < self.size && pos.y < self.size && pos.z < self.size
    }

    /// The element at `pos`.
    pub open spec fn at(&self, pos: UVec3) -> T {
        self.data@[cube_index(self.size as int, pos.x as int, pos.y as int, pos.z as int)]
    }

    /// A cube of edge `size` with every element set to `element`. The edge is a
    /// power of two up to `MAX_MAP_SIZE`, because a quad's origin is stored in
    /// `u8` coordinates and the far face of the last page must still fit.
    pub fn new(element: T, size: u32) -> (r: Array3D2P<T>)
        requires
            exists|p: nat| p <= 4 && #[trigger] span(p) == size,
        ensures
            r.well_formed(),
            r.size == size,
            forall|i: int| 0 <= i < r.data@.len() ==> #[trigger] r.data@[i] == element,
    {
        let size_power = Self::exact_log(size);
        assert(size * size <= 1024 && size * size * size <= 32768) by (nonlinear_arith)
            requires
                size <= 32,
        ;
        let len = size * size * size;
        let mut data: Vec<T> = Vec::with_capacity(len as usize);
        let mut i: u32 = 0;
        while i < len
            invariant
                i <= len,
                data@.len() == i,
                forall|j: int| 0 <= j < i ==> #[trigger] data@[j] == element,
            decreases len - i,
        {
            data.push(element);
            i = i + 1;
        }
        Array3D2P { data, size, size_power }
    }

    /// The power of two that `n` is.
    fn exact_log(n: u32) -> (r: u32)
        requires
            exists|p: nat| p <= 4 && #[trigger] span(p) == n,
        ensures
            r <= 4,
            span(r as nat) == n,
            n <= MAX_MAP_SIZE,
    {
        let mut p: u32 = 0;
        let mut s: u32 = 1;
        while p < 4 && s != n
            invariant
                p <= 4,
                s == span(p as nat),
                exists|q: nat| p <= q <= 4 && #[trigger] span(q) == n,
            decreases 4 - p,
        {
            proof {
                let q = choose|q: nat| p <= q <= 4 && #[trigger] span(q) == n;
                if q == p {
                    assert(false);
                }
            }
            proof {
                crate::builder::lemma_span_bounds(p as nat);
            }
            s = s * 2;
            p = p + 1;
        }
        proof {
            let q = choose|q: nat| p <= q <= 4 && #[trigger] span(q) == n;
            crate::builder::lemma_span_bounds(q);
            reveal_with_fuel(span, 6);
        }
        p
    }

    pub fn get(&self, pos: UVec3) -> (r: &T)
        requires
            self.well_formed(),
            self.contains(pos),
        ensures
            *r == self.at(pos),
    {
        proof {
            lemma_cube_index_bounds(self.size as int, pos.x as int, pos.y as int, pos.z as int);
        }
        &self.data[Self::compute_index(self.size, pos)]
    }

    pub fn set(&mut self, pos: UVec3, value: T)
        requires
            old(self).well_formed(),
            old(self).contains(pos),
        ensures
            final(self).well_formed(),
            final(self).size == old(self).size,
            final(self).data@ == old(self).data@.update(
                cube_index(old(self).size as int, pos.x as int, pos.y as int, pos.z as int),
                value,
            ),
    {
        proof {
            lemma_cube_index_bounds(self.size as int, pos.x as int, pos.y as int, pos.z as int);
        }
        let i = Self::compute_index(self.size, pos);
        self.data.set(i, value);
    }

    fn compute_index(size: u32, pos: UVec3) -> (r: usize)
        requires
            size <= MAX_MAP_SIZE,
            pos.x < size && pos.y < size && pos.z < size,
        ensures
            r == cube_index(size as int, pos.x as int, pos.y as int, pos.z as int),
    {
        proof {
            lemma_cube_index_bounds(size as int, pos.x as int, pos.y as int, pos.z as int);
            assert(size * size * size <= 32 * 32 * 32) by (nonlinear_arith)
                requires
                    size <= 32,
            ;
        }
        assert(pos.z * size + pos.y < size * size && size * size <= 1024) by (nonlinear_arith)
            requires
                pos.z < size,
                pos.y < size,
                size <= 32,
        ;
        assert((pos.z * size + pos.y) * size + pos.x < size * size * size) by (nonlinear_arith)
            requires
                pos.z * size + pos.y < size * size,
                pos.x < size,
        ;
        ((pos.z * size + pos.y) * size + pos.x) as usize
    }
}


/// The row byte of page `b` at `(y, z)` over the first `k` x: bit `x` set when
/// that cell of the grid holds something other than `empty`.
pub open spec fn row_byte(g: VoxelGrid, b: UVec3, y: int, z: int, empty: u16, k: nat) -> u8
    decreases k,
{
    if k == 0 {
        0
    } else {
        let prev = row_byte(g, b, y, z, empty, (k - 1) as nat);
        if grid_cells(g)[(b.x * 8 + k - 1, b.y * 8 + y, b.z * 8 + z)] != empty {
            prev | (1u8 << ((k - 1) as u8))
        } else {
            prev
        }
    }
}

/// The cell of page `b` with index `j` in x, then y, then z order.
pub open spec fn page_cell(g: VoxelGrid, b: UVec3, j: int) -> u16 {
    grid_cells(g)[(b.x * 8 + j % 8, b.y * 8 + (j / 8) % 8, b.z * 8 + j / 64)]
}

/// The first material other than `empty` among the first `i` cells of page `b`.
pub open spec fn first_material(g: VoxelGrid, b: UVec3, empty: u16, i: nat) -> Option<u16>
    decreases i,
{
    if i == 0 {
        None
    } else {
        let prev = first_material(g, b, empty, (i - 1) as nat);
        if prev is Some {
            prev
        } else if page_cell(g, b, i - 1) != empty {
            Some(page_cell(g, b, i - 1))
        } else {
            None
        }
    }
}

/// The entry the grid gives page `b`: a voxel is solid when its cell is not
/// `empty`, and the page's material is that of its first solid voxel.
pub open spec fn entry_of_page(e: OctreeBoxEntry, g: VoxelGrid, b: UVec3, empty: u16) -> bool {
    &&& forall|r: int| 0 <= r < 64 ==> #[trigger] e.voxels@[r] == row_byte(g, b, r % 8, r / 8, empty, 8)
    &&& e.material == match first_material(g, b, empty, 512) {
        Some(m) => m,
        None => empty,
    }
}

proof fn lemma_row_index(r: int, x: int)
    requires
        0 <= r < 64,
        0 <= x < 8,
    ensures
        (r * 8 + x) % 8 == x,
        ((r * 8 + x) / 8) % 8 == r % 8,
        (r * 8 + x) / 64 == r / 8,
{
    assert((r * 8 + x) % 8 == x && (r * 8 + x) / 8 == r) by (nonlinear_arith)
        requires
            0 <= r < 64,
            0 <= x < 8,
    ;
    assert((r * 8 + x) / 64 == r / 8) by (nonlinear_arith)
        requires
            0 <= r < 64,
            0 <= x < 8,
    ;
}

fn page_entry_of(g: &VoxelGrid, b: UVec3, empty: u16) -> (e: OctreeBoxEntry)
    requires
        b.x * 8 + 8 <= grid_extents(*g).0,
        b.y * 8 + 8 <= grid_extents(*g).1,
        b.z * 8 + 8 <= grid_extents(*g).2,
        grid_extents(*g).0 <= MAX_GRID_EXTENT,
        grid_extents(*g).1 <= MAX_GRID_EXTENT,
        grid_extents(*g).2 <= MAX_GRID_EXTENT,
    ensures
        entry_of_page(e, *g, b, empty),
{
    let mut voxels = [0u8; 64];
    let mut first: Option<u16> = None;
    let mut r: usize = 0;
    while r < 64
        invariant
            r <= 64,
            b.x * 8 + 8 <= grid_extents(*g).0 <= MAX_GRID_EXTENT,
            b.y * 8 + 8 <= grid_extents(*g).1 <= MAX_GRID_EXTENT,
            b.z * 8 + 8 <= grid_extents(*g).2 <= MAX_GRID_EXTENT,
            forall|rr: int| 0 <= rr < r ==> #[trigger] voxels@[rr] == row_byte(*g, b, rr % 8, rr / 8, empty, 8),
            first == first_material(*g, b, empty, (r * 8) as nat),
        decreases 64 - r,
    {
        let y = (r % 8) as u32;
        let z = (r / 8) as u32;
        let mut byte: u8 = 0;
        let mut x: u32 = 0;
        while x < 8
            invariant
                x <= 8,
                r < 64,
                y == r % 8,
                z == r / 8,
                b.x * 8 + 8 <= grid_extents(*g).0 <= MAX_GRID_EXTENT,
                b.y * 8 + 8 <= grid_extents(*g).1 <= MAX_GRID_EXTENT,
                b.z * 8 + 8 <= grid_extents(*g).2 <= MAX_GRID_EXTENT,
                byte == row_byte(*g, b, y as int, z as int, empty, x as nat),
                first == first_material(*g, b, empty, (r * 8 + x) as nat),
            decreases 8 - x,
        {
            proof {
                lemma_row_index(r as int, x as int);
            }
            let c = g.at(b.x * 8 + x, b.y * 8 + y, b.z * 8 + z);
            assert(c == page_cell(*g, b, r * 8 + x));
            if c != empty {
                byte = byte | (1u8 << (x as u8));
                if first.is_none() {
                    first = Some(c);
                }
            }
            x = x + 1;
        }
        voxels[r] = byte;
        r = r + 1;
    }
    let material = match first {
        Some(m) => m,
        None => empty,
    };
    OctreeBoxEntry { voxels, material }
}

/// The page map of a cubic grid whose edge is a power of two from 8 to 256:
/// page `j` (x fastest, then y, then z) is the grid's 8x8x8 block at that page
/// position, with cells other than `empty` solid. Any other shape gives
/// `InvalidDepthOrExtent`.
pub fn page_map_from_grid(g: &VoxelGrid, empty: u16) -> (r: Result<
    Array3D2P<OctreeBoxEntry>,
    OctreeError,
>)
    ensures
        r is Ok <==> exists|p: nat|
            p <= 4 && (#[trigger] span(p)) * 8 == grid_extents(*g).0 && grid_extents(*g).0
                == grid_extents(*g).1 && grid_extents(*g).1 == grid_extents(*g).2,
        r matches Ok(m) ==> {
            &&& m.well_formed()
            &&& m.size * 8 == grid_extents(*g).0
            &&& forall|pos: UVec3| m.contains(pos) ==> entry_of_page(#[trigger] m.at(pos), *g, pos, empty)
        },
        r matches Err(e) ==> e == OctreeError::InvalidDepthOrExtent,
{
    let (ex, ey, ez) = g.extents();
    if ex != ey || ey != ez {
        return Err(OctreeError::InvalidDepthOrExtent);
    }
    let mut p: u32 = 0;
    let mut found = false;
    while p <= 4
        invariant
            p <= 5,
            ex == grid_extents(*g).0,
            ex == ey == ez,
            ey == grid_extents(*g).1,
            ez == grid_extents(*g).2,
            found ==> p <= 4 && span(p as nat) * 8 == ex,
            !found ==> forall|q: nat| q < p ==> (#[trigger] span(q)) * 8 != ex,
        ensures
            found ==> p <= 4 && span(p as nat) * 8 == ex,
            !found ==> forall|q: nat| q <= 4 ==> (#[trigger] span(q)) * 8 != ex,
        decreases 5 - p,
    {
        proof {
            crate::builder::lemma_span_bounds(p as nat);
        }
        if level_span(p) as usize * 8 == ex {
            found = true;
            break;
        }
        p = p + 1;
    }
    if !found {
        return Err(OctreeError::InvalidDepthOrExtent);
    }
    proof {
        crate::builder::lemma_span_bounds(p as nat);
        crate::builder::lemma_span_bounds(4);
        crate::builder::lemma_span_monotonic(p as nat, 4);
        reveal_with_fuel(span, 6);
    }
    let size = level_span(p);
    assert(size * size * size <= 32768 && 1 <= size * size <= 1024) by (nonlinear_arith)
        requires
            1 <= size <= 32,
    ;
    let len = size * size * size;
    let mut data: Vec<OctreeBoxEntry> = Vec::with_capacity(len as usize);
    let mut n: u32 = 0;
    while n < len
        invariant
            n <= len,
            len == size * size * size,
            1 <= size <= 32,
            1 <= size * size <= 1024,
            size * 8 == ex,
            ex == grid_extents(*g).0,
            ex == ey == ez,
            ey == grid_extents(*g).1,
            ez == grid_extents(*g).2,
            ex <= MAX_GRID_EXTENT,
            data@.len() == n,
            forall|j: int|
                0 <= j < n ==> entry_of_page(#[trigger] data@[j], *g, page_at_index(size, j), empty),
        decreases len - n,
    {
        proof {
            lemma_page_at_index_inside(size, n as int);
        }
        let b = UVec3 { x: n % size, y: (n / size) % size, z: n / (size * size) };
        assert(b == page_at_index(size, n as int));
        data.push(page_entry_of(g, b, empty));
        n = n + 1;
    }
    let m = Array3D2P { data, size, size_power: p };
    assert forall|pos: UVec3| m.contains(pos) implies entry_of_page(#[trigger] m.at(pos), *g, pos, empty) by {
        lemma_page_at_cube_index(size, pos);
        lemma_cube_index_bounds(size as int, pos.x as int, pos.y as int, pos.z as int);
    }
    Ok(m)
}


/// Bit `i` of `b`.
pub open spec fn bit_of(b: u8, i: int) -> bool {
    (b >> (i as u8)) & 1u8 == 1u8
}

proof fn lemma_bit_or(a: u8, b: u8, i: u8)
    requires
        i < 8,
    ensures
        ((a | b) >> i) & 1u8 == 1u8 <==> ((a >> i) & 1u8 == 1u8 || (b >> i) & 1u8 == 1u8),
{
    assert(((a | b) >> i) & 1u8 == 1u8 <==> ((a >> i) & 1u8 == 1u8 || (b >> i) & 1u8 == 1u8))
        by (bit_vector)
        requires
            i < 8,
    ;
}

pub proof fn lemma_bit_or_single(a: u8, s: u8, i: u8)
    requires
        i < 8,
        s < 8,
    ensures
        ((a | (1u8 << s)) >> i) & 1u8 == 1u8 <==> ((a >> i) & 1u8 == 1u8 || i == s),
{
    assert(((a | (1u8 << s)) >> i) & 1u8 == 1u8 <==> ((a >> i) & 1u8 == 1u8 || i == s))
        by (bit_vector)
        requires
            i < 8,
            s < 8,
    ;
}

/// A row holding a solid voxel is not zero, and the voxel's half of the row is
/// not zero either.
proof fn lemma_bit_in_nibble(b: u8, x: u8)
    requires
        x < 8,
        (b >> x) & 1u8 == 1u8,
    ensures
        b != 0,
        x < 4 ==> b & 0x0f != 0,
        x >= 4 ==> b & 0xf0 != 0,
{
    assert(b != 0 && (x < 4 ==> b & 0x0f != 0) && (x >= 4 ==> b & 0xf0 != 0)) by (bit_vector)
        requires
            x < 8,
            (b >> x) & 1u8 == 1u8,
    ;
}

/// What the masks gathered over the first `n` rows say of those rows.
proof fn lemma_summary_masks(voxels: [u8; 64], n: nat)
    requires
        n <= 64,
    ensures
        forall|i: int|
            0 <= i < 8 ==> (#[trigger] bit_of(summary_upto(voxels, n).xmask, i) <== exists|r: int|
                0 <= r < n && #[trigger] bit_of(voxels@[r], i)),
        forall|r: int|
            0 <= r < n && #[trigger] voxels@[r] != 0 ==> bit_of(summary_upto(voxels, n).ymask, r % 8)
                && bit_of(summary_upto(voxels, n).zmask, r / 8),
        forall|r: int|
            0 <= r < n && voxels@[r] & 0x0f != 0 ==> #[trigger] bit_of(
                summary_upto(voxels, n).occupied,
                row_octant(r, 0) as int,
            ),
        forall|r: int|
            0 <= r < n && voxels@[r] & 0xf0 != 0 ==> #[trigger] bit_of(
                summary_upto(voxels, n).occupied,
                row_octant(r, 1) as int,
            ),
    decreases n,
{
    if n > 0 {
        lemma_summary_masks(voxels, (n - 1) as nat);
        let s = summary_upto(voxels, (n - 1) as nat);
        let t = summary_upto(voxels, n);
        let r = n - 1;
        let b = voxels@[r];
        assert forall|i: int| 0 <= i < 8 && (exists|q: int| 0 <= q < n && #[trigger] bit_of(voxels@[q], i))
            implies #[trigger] bit_of(t.xmask, i) by {
            lemma_bit_or(s.xmask, b, i as u8);
            let q = choose|q: int| 0 <= q < n && #[trigger] bit_of(voxels@[q], i);
            if q < r {
                assert(bit_of(s.xmask, i));
            }
        }
        let lo = 1u8 << row_octant(r, 0);
        let hi = 1u8 << row_octant(r, 1);
        assert(row_octant(r, 0) < 8 && row_octant(r, 1) < 8);
        assert forall|q: int| 0 <= q < n && #[trigger] voxels@[q] != 0 implies bit_of(t.ymask, q % 8)
            && bit_of(t.zmask, q / 8) by {
            if b != 0 {
                lemma_bit_or_single(s.ymask, (r % 8) as u8, (q % 8) as u8);
                lemma_bit_or_single(s.zmask, (r / 8) as u8, (q / 8) as u8);
            }
        }
        let occ1 = s.occupied | (if b & 0x0f != 0 { lo } else { 0 });
        assert(t.occupied == occ1 | (if b & 0xf0 != 0 { hi } else { 0 }));
        assert forall|q: int| 0 <= q < n && voxels@[q] & 0x0f != 0 implies #[trigger] bit_of(
            t.occupied,
            row_octant(q, 0) as int,
        ) by {
            let c = row_octant(q, 0);
            assert(c < 8);
            if q < r {
                assert(bit_of(s.occupied, row_octant(q, 0) as int));
            }
            lemma_bit_or(occ1, if b & 0xf0 != 0 { hi } else { 0 }, c);
            lemma_bit_or(s.occupied, if b & 0x0f != 0 { lo } else { 0 }, c);
            if q == r {
                assert(((1u8 << c) >> c) & 1u8 == 1u8) by (bit_vector)
                    requires
                        c < 8,
                ;
            }
        }
        assert forall|q: int| 0 <= q < n && voxels@[q] & 0xf0 != 0 implies #[trigger] bit_of(
            t.occupied,
            row_octant(q, 1) as int,
        ) by {
            let c = row_octant(q, 1);
            assert(c < 8);
            if q < r {
                assert(bit_of(s.occupied, row_octant(q, 1) as int));
            }
            lemma_bit_or(occ1, if b & 0xf0 != 0 { hi } else { 0 }, c);
            lemma_bit_or(s.occupied, if b & 0x0f != 0 { lo } else { 0 }, c);
            if q == r {
                assert(((1u8 << c) >> c) & 1u8 == 1u8) by (bit_vector)
                    requires
                        c < 8,
                ;
            }
        }
    }
}

/// A solid voxel sets its bit in each axis mask and its octant's bit in the
/// occupied mask.
pub proof fn lemma_solid_voxel_in_summary(voxels: [u8; 64], x: int, y: int, z: int)
    requires
        0 <= x < 8,
        0 <= y < 8,
        0 <= z < 8,
        solid(voxels, x, y, z),
    ensures
        bit_of(page_summary(voxels).xmask, x),
        bit_of(page_summary(voxels).ymask, y),
        bit_of(page_summary(voxels).zmask, z),
        bit_of(page_summary(voxels).occupied, x / 4 + 2 * (y / 4) + 4 * (z / 4)),
{
    lemma_summary_masks(voxels, 64);
    let r = z * 8 + y;
    assert(bit_of(voxels@[r], x));
    lemma_bit_in_nibble(voxels@[r], x as u8);
    assert(r % 8 == y && r / 8 == z);
    if x < 4 {
        assert(row_octant(r, 0) as int == x / 4 + 2 * (y / 4) + 4 * (z / 4));
    } else {
        assert(row_octant(r, 1) as int == x / 4 + 2 * (y / 4) + 4 * (z / 4));
    }
}

} // verus!

verus! {

/// The low (`h == 0`) or high half of a row byte.
pub open spec fn half(b: u8, h: int) -> u8 {
    if h == 0 {
        b & 0x0f
    } else {
        b & 0xf0
    }
}

/// The value of a half whose four voxels are all solid.
pub open spec fn full_half(h: int) -> u8 {
    if h == 0 {
        0x0f
    } else {
        0xf0
    }
}

pub proof fn lemma_bit_single(c0: u8, c: u8)
    requires
        c0 < 8,
        c < 8,
    ensures
        ((1u8 << c0) >> c) & 1u8 == 1u8 <==> c == c0,
        ((!(1u8 << c0)) >> c) & 1u8 == 1u8 <==> c != c0,
        (0u8 >> c) & 1u8 != 1u8,
        (0xffu8 >> c) & 1u8 == 1u8,
{
    assert(((1u8 << c0) >> c) & 1u8 == 1u8 <==> c == c0) by (bit_vector)
        requires
            c0 < 8,
            c < 8,
    ;
    assert(((!(1u8 << c0)) >> c) & 1u8 == 1u8 <==> c != c0) by (bit_vector)
        requires
            c0 < 8,
            c < 8,
    ;
    assert((0u8 >> c) & 1u8 != 1u8 && (0xffu8 >> c) & 1u8 == 1u8) by (bit_vector)
        requires
            c < 8,
    ;
}

proof fn lemma_bit_and(a: u8, b: u8, i: u8)
    requires
        i < 8,
    ensures
        ((a & b) >> i) & 1u8 == 1u8 <==> ((a >> i) & 1u8 == 1u8 && (b >> i) & 1u8 == 1u8),
{
    assert(((a & b) >> i) & 1u8 == 1u8 <==> ((a >> i) & 1u8 == 1u8 && (b >> i) & 1u8 == 1u8))
        by (bit_vector)
        requires
            i < 8,
    ;
}

/// What the octant masks gathered over the first `n` rows say, row half by row
/// half.
proof fn lemma_summary_octants(voxels: [u8; 64], n: nat)
    requires
        n <= 64,
    ensures
        forall|c: int|
            0 <= c < 8 ==> (#[trigger] bit_of(summary_upto(voxels, n).occupied, c) <==> exists|r: int, h: int|
                0 <= r < n && 0 <= h < 2 && #[trigger] row_octant(r, h) == c && half(voxels@[r], h) != 0),
        forall|c: int|
            0 <= c < 8 ==> (#[trigger] bit_of(summary_upto(voxels, n).full, c) <==> forall|r: int, h: int|
                0 <= r < n && 0 <= h < 2 && #[trigger] row_octant(r, h) == c ==> half(voxels@[r], h)
                    == full_half(h)),
    decreases n,
{
    if n > 0 {
        lemma_summary_octants(voxels, (n - 1) as nat);
        let s = summary_upto(voxels, (n - 1) as nat);
        let t = summary_upto(voxels, n);
        let r = n - 1;
        let b = voxels@[r];
        let c0 = row_octant(r, 0);
        let c1 = row_octant(r, 1);
        assert(c0 < 8 && c1 < 8 && c0 != c1);
        let lo = 1u8 << c0;
        let hi = 1u8 << c1;
        let a0: u8 = if b & 0x0f != 0 { lo } else { 0 };
        let a1: u8 = if b & 0xf0 != 0 { hi } else { 0 };
        let m0: u8 = if b & 0x0f != 0x0f { !lo } else { 0xff };
        let m1: u8 = if b & 0xf0 != 0xf0 { !hi } else { 0xff };
        assert(t.occupied == s.occupied | a0 | a1);
        assert(t.full == s.full & m0 & m1);
        assert forall|c: int| 0 <= c < 8 implies (#[trigger] bit_of(t.occupied, c) <==> exists|q: int, h: int|
            0 <= q < n && 0 <= h < 2 && #[trigger] row_octant(q, h) == c && half(voxels@[q], h) != 0) by {
            let cc = c as u8;
            lemma_bit_or(s.occupied | a0, a1, cc);
            lemma_bit_or(s.occupied, a0, cc);
            lemma_bit_single(c0, cc);
            lemma_bit_single(c1, cc);
            assert(bit_of(s.occupied, c) <==> exists|q: int, h: int|
                0 <= q < n - 1 && 0 <= h < 2 && #[trigger] row_octant(q, h) == c && half(voxels@[q], h)
                    != 0);
            if bit_of(t.occupied, c) {
                if !bit_of(s.occupied, c) {
                    if cc == c0 && b & 0x0f != 0 {
                        assert(row_octant(r, 0) == c && half(voxels@[r], 0) != 0);
                    } else {
                        assert(row_octant(r, 1) == c && half(voxels@[r], 1) != 0);
                    }
                }
            } else {
                assert forall|q: int, h: int|
                    0 <= q < n && 0 <= h < 2 && #[trigger] row_octant(q, h) == c implies half(
                    voxels@[q],
                    h,
                ) == 0 by {
                    if q == r {
                        if h == 0 {
                            assert(cc == c0);
                        } else {
                            assert(cc == c1);
                        }
                    }
                }
            }
        }
        assert forall|c: int| 0 <= c < 8 implies (#[trigger] bit_of(t.full, c) <==> forall|q: int, h: int|
            0 <= q < n && 0 <= h < 2 && #[trigger] row_octant(q, h) == c ==> half(voxels@[q], h)
                == full_half(h)) by {
            let cc = c as u8;
            lemma_bit_and(s.full & m0, m1, cc);
            lemma_bit_and(s.full, m0, cc);
            lemma_bit_single(c0, cc);
            lemma_bit_single(c1, cc);
            assert(bit_of(s.full, c) <==> forall|q: int, h: int|
                0 <= q < n - 1 && 0 <= h < 2 && #[trigger] row_octant(q, h) == c ==> half(voxels@[q], h)
                    == full_half(h));
            if bit_of(t.full, c) {
                assert forall|q: int, h: int|
                    0 <= q < n && 0 <= h < 2 && #[trigger] row_octant(q, h) == c implies half(
                    voxels@[q],
                    h,
                ) == full_half(h) by {
                    if q == r {
                        if h == 0 {
                            assert(cc == c0);
                        } else {
                            assert(cc == c1);
                        }
                    }
                }
            } else {
                if bit_of(s.full, c) {
                    if cc == c0 && b & 0x0f != 0x0f {
                        assert(row_octant(r, 0) == c);
                    } else {
                        assert(row_octant(r, 1) == c);
                    }
                }
            }
        }
    } else {
        assert forall|c: int| 0 <= c < 8 implies !bit_of(summary_upto(voxels, 0).occupied, c) && bit_of(
            summary_upto(voxels, 0).full,
            c,
        ) by {
            lemma_bit_single(0, c as u8);
        }
    }
}

} // verus!

verus! {

/// The octant of a page that voxel `(x, y, z)` lies in.
pub open spec fn voxel_octant(x: int, y: int, z: int) -> int {
    x / 4 + 2 * (y / 4) + 4 * (z / 4)
}

/// Some voxel of octant `c` is solid.
pub open spec fn octant_has_solid(voxels: [u8; 64], c: int) -> bool {
    exists|x: int, y: int, z: int|
        0 <= x < 8 && 0 <= y < 8 && 0 <= z < 8 && voxel_octant(x, y, z) == c && #[trigger] solid(
            voxels,
            x,
            y,
            z,
        )
}

/// Every voxel of octant `c` is solid.
pub open spec fn octant_all_solid(voxels: [u8; 64], c: int) -> bool {
    forall|x: int, y: int, z: int|
        0 <= x < 8 && 0 <= y < 8 && 0 <= z < 8 && voxel_octant(x, y, z) == c ==> #[trigger] solid(
            voxels,
            x,
            y,
            z,
        )
}

/// Some voxel with this x is solid.
pub open spec fn column_has_solid(voxels: [u8; 64], x: int) -> bool {
    exists|y: int, z: int| 0 <= y < 8 && 0 <= z < 8 && #[trigger] solid(voxels, x, y, z)
}

proof fn lemma_half_bits(b: u8)
    ensures
        half(b, 0) != 0 <==> (bit_of(b, 0) || bit_of(b, 1) || bit_of(b, 2) || bit_of(b, 3)),
        half(b, 1) != 0 <==> (bit_of(b, 4) || bit_of(b, 5) || bit_of(b, 6) || bit_of(b, 7)),
        half(b, 0) == full_half(0) <==> (bit_of(b, 0) && bit_of(b, 1) && bit_of(b, 2) && bit_of(b, 3)),
        half(b, 1) == full_half(1) <==> (bit_of(b, 4) && bit_of(b, 5) && bit_of(b, 6) && bit_of(b, 7)),
{
    assert(b & 0x0f != 0 <==> ((b >> 0u8) & 1u8 == 1u8 || (b >> 1u8) & 1u8 == 1u8 || (b >> 2u8) & 1u8
        == 1u8 || (b >> 3u8) & 1u8 == 1u8)) by (bit_vector);
    assert(b & 0xf0 != 0 <==> ((b >> 4u8) & 1u8 == 1u8 || (b >> 5u8) & 1u8 == 1u8 || (b >> 6u8) & 1u8
        == 1u8 || (b >> 7u8) & 1u8 == 1u8)) by (bit_vector);
    assert(b & 0x0f == 0x0f <==> ((b >> 0u8) & 1u8 == 1u8 && (b >> 1u8) & 1u8 == 1u8 && (b >> 2u8)
        & 1u8 == 1u8 && (b >> 3u8) & 1u8 == 1u8)) by (bit_vector);
    assert(b & 0xf0 == 0xf0 <==> ((b >> 4u8) & 1u8 == 1u8 && (b >> 5u8) & 1u8 == 1u8 && (b >> 6u8)
        & 1u8 == 1u8 && (b >> 7u8) & 1u8 == 1u8)) by (bit_vector);
}

proof fn lemma_summary_xmask(voxels: [u8; 64], n: nat)
    requires
        n <= 64,
    ensures
        forall|i: int|
            0 <= i < 8 ==> (#[trigger] bit_of(summary_upto(voxels, n).xmask, i) <==> exists|r: int|
                0 <= r < n && #[trigger] bit_of(voxels@[r], i)),
    decreases n,
{
    if n > 0 {
        lemma_summary_xmask(voxels, (n - 1) as nat);
        let s = summary_upto(voxels, (n - 1) as nat);
        assert forall|i: int| 0 <= i < 8 implies (#[trigger] bit_of(summary_upto(voxels, n).xmask, i)
            <==> exists|r: int| 0 <= r < n && #[trigger] bit_of(voxels@[r], i)) by {
            lemma_bit_or(s.xmask, voxels@[n - 1], i as u8);
            assert(bit_of(s.xmask, i) <==> exists|r: int| 0 <= r < n - 1 && #[trigger] bit_of(voxels@[r], i));
            if exists|r: int| 0 <= r < n && #[trigger] bit_of(voxels@[r], i) {
                let r = choose|r: int| 0 <= r < n && #[trigger] bit_of(voxels@[r], i);
                if r < n - 1 {
                    assert(bit_of(s.xmask, i));
                }
            }
            if bit_of(voxels@[n - 1], i) {
                assert(bit_of(voxels@[n - 1], i));
            }
        }
    } else {
        assert forall|i: int| 0 <= i < 8 implies !bit_of(summary_upto(voxels, 0).xmask, i) by {
            lemma_bit_single(0, i as u8);
        }
    }
}

proof fn lemma_row_of_voxel(x: int, y: int, z: int)
    requires
        0 <= x < 8,
        0 <= y < 8,
        0 <= z < 8,
    ensures
        (z * 8 + y) % 8 == y,
        (z * 8 + y) / 8 == z,
        row_octant(z * 8 + y, x / 4) as int == voxel_octant(x, y, z),
{
}

/// What the masks of a page summary mean: bit `c` of `occupied` is set exactly
/// when octant `c` holds a solid voxel, bit `c` of `full` exactly when all of
/// octant `c` is solid, and bit `x` of `xmask` exactly when some voxel with that
/// x is solid.
pub proof fn lemma_page_summary_meaning(voxels: [u8; 64])
    ensures
        forall|c: int|
            0 <= c < 8 ==> (#[trigger] bit_of(page_summary(voxels).occupied, c) <==> octant_has_solid(
                voxels,
                c,
            )),
        forall|c: int|
            0 <= c < 8 ==> (#[trigger] bit_of(page_summary(voxels).full, c) <==> octant_all_solid(
                voxels,
                c,
            )),
        forall|x: int|
            0 <= x < 8 ==> (#[trigger] bit_of(page_summary(voxels).xmask, x) <==> column_has_solid(
                voxels,
                x,
            )),
{
    lemma_summary_octants(voxels, 64);
    lemma_summary_xmask(voxels, 64);
    let s = page_summary(voxels);
    assert forall|c: int| 0 <= c < 8 implies (#[trigger] bit_of(s.occupied, c) <==> octant_has_solid(
        voxels,
        c,
    )) by {
        if bit_of(s.occupied, c) {
            let (r, h) = choose|r: int, h: int|
                0 <= r < 64 && 0 <= h < 2 && #[trigger] row_octant(r, h) == c && half(voxels@[r], h) != 0;
            lemma_half_bits(voxels@[r]);
            let (y, z) = (r % 8, r / 8);
            assert(z * 8 + y == r);
            let x = if h == 0 {
                if bit_of(voxels@[r], 0) { 0int } else if bit_of(voxels@[r], 1) { 1int } else if bit_of(
                    voxels@[r],
                    2,
                ) { 2int } else { 3int }
            } else {
                if bit_of(voxels@[r], 4) { 4int } else if bit_of(voxels@[r], 5) { 5int } else if bit_of(
                    voxels@[r],
                    6,
                ) { 6int } else { 7int }
            };
            lemma_row_of_voxel(x, y, z);
            assert(solid(voxels, x, y, z));
        }
        if octant_has_solid(voxels, c) {
            let (x, y, z) = choose|x: int, y: int, z: int|
                0 <= x < 8 && 0 <= y < 8 && 0 <= z < 8 && voxel_octant(x, y, z) == c && #[trigger] solid(
                    voxels,
                    x,
                    y,
                    z,
                );
            let r = z * 8 + y;
            lemma_row_of_voxel(x, y, z);
            lemma_half_bits(voxels@[r]);
            assert(row_octant(r, x / 4) == c && half(voxels@[r], x / 4) != 0);
        }
    }
    assert forall|c: int| 0 <= c < 8 implies (#[trigger] bit_of(s.full, c) <==> octant_all_solid(
        voxels,
        c,
    )) by {
        if bit_of(s.full, c) {
            assert forall|x: int, y: int, z: int|
                0 <= x < 8 && 0 <= y < 8 && 0 <= z < 8 && voxel_octant(x, y, z) == c implies #[trigger] solid(
                voxels,
                x,
                y,
                z,
            ) by {
                let r = z * 8 + y;
                lemma_row_of_voxel(x, y, z);
                lemma_half_bits(voxels@[r]);
                assert(row_octant(r, x / 4) == c);
            }
        }
        if octant_all_solid(voxels, c) {
            assert forall|r: int, h: int|
                0 <= r < 64 && 0 <= h < 2 && #[trigger] row_octant(r, h) == c implies half(voxels@[r], h)
                == full_half(h) by {
                let (y, z) = (r % 8, r / 8);
                assert(z * 8 + y == r);
                lemma_half_bits(voxels@[r]);
                lemma_row_of_voxel(4 * h, y, z);
                lemma_row_of_voxel(4 * h + 1, y, z);
                lemma_row_of_voxel(4 * h + 2, y, z);
                lemma_row_of_voxel(4 * h + 3, y, z);
                assert(solid(voxels, 4 * h, y, z));
                assert(solid(voxels, 4 * h + 1, y, z));
                assert(solid(voxels, 4 * h + 2, y, z));
                assert(solid(voxels, 4 * h + 3, y, z));
            }
        }
    }
    assert forall|x: int| 0 <= x < 8 implies (#[trigger] bit_of(s.xmask, x) <==> column_has_solid(
        voxels,
        x,
    )) by {
        if bit_of(s.xmask, x) {
            let r = choose|r: int| 0 <= r < 64 && #[trigger] bit_of(voxels@[r], x);
            let (y, z) = (r % 8, r / 8);
            assert(z * 8 + y == r);
            assert(solid(voxels, x, y, z));
        }
        if column_has_solid(voxels, x) {
            let (y, z) = choose|y: int, z: int| 0 <= y < 8 && 0 <= z < 8 && #[trigger] solid(voxels, x, y, z);
            assert(bit_of(voxels@[z * 8 + y], x));
        }
    }
}

} // verus!

verus! {

/// Bit `i` of a 64-bit mask.
pub open spec fn bit64_of(m: u64, i: int) -> bool {
    (m >> (i as u64)) & 1u64 == 1u64
}

proof fn lemma_bit64_or_single(a: u64, s: u64, i: u64)
    requires
        i < 64,
        s < 64,
    ensures
        ((a | (1u64 << s)) >> i) & 1u64 == 1u64 <==> ((a >> i) & 1u64 == 1u64 || i == s),
        (0u64 >> i) & 1u64 != 1u64,
{
    assert(((a | (1u64 << s)) >> i) & 1u64 == 1u64 <==> ((a >> i) & 1u64 == 1u64 || i == s))
        by (bit_vector)
        requires
            i < 64,
            s < 64,
    ;
    assert((0u64 >> i) & 1u64 != 1u64) by (bit_vector);
}

proof fn lemma_row_nonzero(b: u8)
    ensures
        b != 0 <==> (bit_of(b, 0) || bit_of(b, 1) || bit_of(b, 2) || bit_of(b, 3) || bit_of(b, 4)
            || bit_of(b, 5) || bit_of(b, 6) || bit_of(b, 7)),
{
    assert(b != 0 <==> ((b >> 0u8) & 1u8 == 1u8 || (b >> 1u8) & 1u8 == 1u8 || (b >> 2u8) & 1u8 == 1u8
        || (b >> 3u8) & 1u8 == 1u8 || (b >> 4u8) & 1u8 == 1u8 || (b >> 5u8) & 1u8 == 1u8 || (b >> 6u8)
        & 1u8 == 1u8 || (b >> 7u8) & 1u8 == 1u8)) by (bit_vector);
}

/// What the y, z and row masks gathered over the first `n` rows say.
proof fn lemma_summary_rows(voxels: [u8; 64], n: nat)
    requires
        n <= 64,
    ensures
        forall|y: int|
            0 <= y < 8 ==> (#[trigger] bit_of(summary_upto(voxels, n).ymask, y) <==> exists|r: int|
                0 <= r < n && r % 8 == y && #[trigger] voxels@[r] != 0),
        forall|z: int|
            0 <= z < 8 ==> (#[trigger] bit_of(summary_upto(voxels, n).zmask, z) <==> exists|r: int|
                0 <= r < n && r / 8 == z && #[trigger] voxels@[r] != 0),
        forall|r: int|
            0 <= r < 64 ==> (#[trigger] bit64_of(summary_upto(voxels, n).rows, r) <==> (r < n
                && voxels@[r] != 0)),
    decreases n,
{
    if n > 0 {
        lemma_summary_rows(voxels, (n - 1) as nat);
        let s = summary_upto(voxels, (n - 1) as nat);
        let t = summary_upto(voxels, n);
        let r = n - 1;
        let b = voxels@[r];
        assert forall|y: int| 0 <= y < 8 implies (#[trigger] bit_of(t.ymask, y) <==> exists|q: int|
            0 <= q < n && q % 8 == y && #[trigger] voxels@[q] != 0) by {
            assert(bit_of(s.ymask, y) <==> exists|q: int| 0 <= q < n - 1 && q % 8 == y && #[trigger] voxels@[q] != 0);
            if b != 0 {
                lemma_bit_or_single(s.ymask, (r % 8) as u8, y as u8);
            }
            if exists|q: int| 0 <= q < n && q % 8 == y && #[trigger] voxels@[q] != 0 {
                let q = choose|q: int| 0 <= q < n && q % 8 == y && #[trigger] voxels@[q] != 0;
                if q < r {
                    assert(bit_of(s.ymask, y));
                }
            }
            if b != 0 && y == r % 8 {
                assert(voxels@[r] != 0);
            }
        }
        assert forall|z: int| 0 <= z < 8 implies (#[trigger] bit_of(t.zmask, z) <==> exists|q: int|
            0 <= q < n && q / 8 == z && #[trigger] voxels@[q] != 0) by {
            assert(bit_of(s.zmask, z) <==> exists|q: int| 0 <= q < n - 1 && q / 8 == z && #[trigger] voxels@[q] != 0);
            if b != 0 {
                lemma_bit_or_single(s.zmask, (r / 8) as u8, z as u8);
            }
            if exists|q: int| 0 <= q < n && q / 8 == z && #[trigger] voxels@[q] != 0 {
                let q = choose|q: int| 0 <= q < n && q / 8 == z && #[trigger] voxels@[q] != 0;
                if q < r {
                    assert(bit_of(s.zmask, z));
                }
            }
            if b != 0 && z == r / 8 {
                assert(voxels@[r] != 0);
            }
        }
        assert forall|q: int| 0 <= q < 64 implies (#[trigger] bit64_of(t.rows, q) <==> (q < n
            && voxels@[q] != 0)) by {
            assert(bit64_of(s.rows, q) <==> (q < n - 1 && voxels@[q] != 0));
            if b != 0 {
                lemma_bit64_or_single(s.rows, r as u64, q as u64);
            }
        }
    } else {
        assert forall|i: int| 0 <= i < 8 implies !bit_of(summary_upto(voxels, 0).ymask, i) && !bit_of(
            summary_upto(voxels, 0).zmask,
            i,
        ) by {
            lemma_bit_single(0, i as u8);
        }
        assert forall|i: int| 0 <= i < 64 implies !bit64_of(summary_upto(voxels, 0).rows, i) by {
            lemma_bit64_or_single(0, 0, i as u64);
        }
    }
}

/// Some voxel with this y is solid.
pub open spec fn layer_y_has_solid(voxels: [u8; 64], y: int) -> bool {
    exists|x: int, z: int| 0 <= x < 8 && 0 <= z < 8 && #[trigger] solid(voxels, x, y, z)
}

/// Some voxel with this z is solid.
pub open spec fn layer_z_has_solid(voxels: [u8; 64], z: int) -> bool {
    exists|x: int, y: int| 0 <= x < 8 && 0 <= y < 8 && #[trigger] solid(voxels, x, y, z)
}

/// What the y, z and row masks of a page summary mean: bit `y` of `ymask` is
/// set exactly when some voxel with that y is solid, likewise for `zmask`, and
/// bit `r` of `rows` exactly when row `r` is not empty.
pub proof fn lemma_page_summary_rows_meaning(voxels: [u8; 64])
    ensures
        forall|y: int|
            0 <= y < 8 ==> (#[trigger] bit_of(page_summary(voxels).ymask, y) <==> layer_y_has_solid(
                voxels,
                y,
            )),
        forall|z: int|
            0 <= z < 8 ==> (#[trigger] bit_of(page_summary(voxels).zmask, z) <==> layer_z_has_solid(
                voxels,
                z,
            )),
        forall|r: int|
            0 <= r < 64 ==> (#[trigger] bit64_of(page_summary(voxels).rows, r) <==> voxels@[r] != 0),
{
    lemma_summary_rows(voxels, 64);
    let s = page_summary(voxels);
    assert forall|y: int| 0 <= y < 8 implies (#[trigger] bit_of(s.ymask, y) <==> layer_y_has_solid(
        voxels,
        y,
    )) by {
        if bit_of(s.ymask, y) {
            let r = choose|r: int| 0 <= r < 64 && r % 8 == y && #[trigger] voxels@[r] != 0;
            let z = r / 8;
            assert(z * 8 + y == r);
            lemma_row_nonzero(voxels@[r]);
            let x = choose|x: int| 0 <= x < 8 && #[trigger] bit_of(voxels@[r], x);
            assert(solid(voxels, x, y, z));
        }
        if layer_y_has_solid(voxels, y) {
            let (x, z) = choose|x: int, z: int| 0 <= x < 8 && 0 <= z < 8 && #[trigger] solid(voxels, x, y, z);
            let r = z * 8 + y;
            lemma_row_nonzero(voxels@[r]);
            assert(r % 8 == y && voxels@[r] != 0);
        }
    }
    assert forall|z: int| 0 <= z < 8 implies (#[trigger] bit_of(s.zmask, z) <==> layer_z_has_solid(
        voxels,
        z,
    )) by {
        if bit_of(s.zmask, z) {
            let r = choose|r: int| 0 <= r < 64 && r / 8 == z && #[trigger] voxels@[r] != 0;
            let y = r % 8;
            assert(z * 8 + y == r);
            lemma_row_nonzero(voxels@[r]);
            let x = choose|x: int| 0 <= x < 8 && #[trigger] bit_of(voxels@[r], x);
            assert(solid(voxels, x, y, z));
        }
        if layer_z_has_solid(voxels, z) {
            let (x, y) = choose|x: int, y: int| 0 <= x < 8 && 0 <= y < 8 && #[trigger] solid(voxels, x, y, z);
            let r = z * 8 + y;
            lemma_row_nonzero(voxels@[r]);
            assert(r / 8 == z && voxels@[r] != 0);
        }
    }
}

} // verus!
