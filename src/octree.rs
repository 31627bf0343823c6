//! The packed octree: a pre-order buffer of node records with no pointers.
//!
//! A node's record is one of:
//! - homogeneous: the homogeneous marker, then the material of the whole cube;
//! - sparse: the sparse marker, then the records of the eight children in
//!   octant order;
//! - leaf (level 0 only): the eight materials of the block, raw.
//! A level the builder passes through writes no record: the eight children's
//! records follow one another directly. A reader knows every record's level
//! from its depth in the traversal, so markers carry no level; a buffer with
//! pass-through levels, though, cannot be read back without the builder.
//! A tree that holds one material everywhere is stored as the homogeneous
//! marker and that material, whatever its depth.
use vstd::prelude::*;

use crate::builder::{
    cell_at, lemma_child_inside, lemma_span_bounds, node_edge, Array3DOctreeBuilder, OctreeBuilder,
    VoxelOctreeBuilder,
    OctreeBuilderResult, OctreeCreationPosition, MAX_TREE_DEPTH,
};
use crate::grid::{grid_cells, grid_contains};
use crate::types::{OctreeError, UVec3};

verus! {

/// Opens a record of one material for the whole cube.
pub const MARKER_HOMOGENEOUS: u16 = 1;

/// Opens a record followed by the records of its eight children.
pub const MARKER_SPARSE: u16 = 2;

/// The common material of a leaf block, if its eight materials agree.
pub open spec fn block_uniform(block: Seq<u16>) -> Option<u16> {
    if forall|i: int| 0 <= i < 8 ==> #[trigger] block[i] == block[0] {
        Some(block[0])
    } else {
        None
    }
}

/// The elements the constructor writes for the node at `pos`.
pub open spec fn node_record<S, B: OctreeBuilder<S>>(
    b: B,
    pos: OctreeCreationPosition,
    state: S,
) -> Seq<u16>
    decreases pos.level, 9nat,
{
    if pos.level == 0 {
        b.spec_block(pos, state)@
    } else {
        match b.spec_octant(pos, state) {
            OctreeBuilderResult::Homogeneous(m) => seq![MARKER_HOMOGENEOUS, m],
            OctreeBuilderResult::Sparse => seq![MARKER_SPARSE] + children_records(b, pos, state, 8),
            OctreeBuilderResult::SamplingRequired(s) => children_records(b, pos, s, 8),
        }
    }
}

/// The records of the first `k` children of `pos`, one after another.
pub open spec fn children_records<S, B: OctreeBuilder<S>>(
    b: B,
    pos: OctreeCreationPosition,
    state: S,
    k: nat,
) -> Seq<u16>
    decreases pos.level, k,
{
    if pos.level == 0 || k == 0 {
        seq![]
    } else {
        children_records(b, pos, state, (k - 1) as nat) + node_record(
            b,
            pos.spec_child((k - 1) as u8),
            state,
        )
    }
}

/// The material of the node at `pos` when its whole cube holds that material.
pub open spec fn node_uniform<S, B: OctreeBuilder<S>>(
    b: B,
    pos: OctreeCreationPosition,
    state: S,
) -> Option<u16>
    decreases pos.level, 9nat,
{
    if pos.level == 0 {
        block_uniform(b.spec_block(pos, state)@)
    } else {
        match b.spec_octant(pos, state) {
            OctreeBuilderResult::Homogeneous(m) => Some(m),
            OctreeBuilderResult::Sparse => children_uniform(b, pos, state, 8),
            OctreeBuilderResult::SamplingRequired(s) => children_uniform(b, pos, s, 8),
        }
    }
}

/// The material shared by the first `k` children of `pos`, when all of them are
/// uniform in that one material.
pub open spec fn children_uniform<S, B: OctreeBuilder<S>>(
    b: B,
    pos: OctreeCreationPosition,
    state: S,
    k: nat,
) -> Option<u16>
    decreases pos.level, k,
{
    if pos.level == 0 || k == 0 {
        None
    } else if k == 1 {
        node_uniform(b, pos.spec_child(0), state)
    } else {
        let prev = children_uniform(b, pos, state, (k - 1) as nat);
        let cur = node_uniform(b, pos.spec_child((k - 1) as u8), state);
        if prev.is_some() && cur == prev {
            prev
        } else {
            None
        }
    }
}

/// The buffer the constructor produces: the root's record, or a single
/// homogeneous record when the whole tree holds one material.
pub open spec fn packed_tree<S, B: OctreeBuilder<S>>(b: B) -> Seq<u16> {
    let depth = b.spec_tree_depth();
    let root = OctreeCreationPosition::root(depth as u32);
    let state = b.spec_default_state();
    match node_uniform(b, root, state) {
        Some(m) => seq![MARKER_HOMOGENEOUS, m],
        None => node_record(b, root, state),
    }
}

/// The largest record a node at `level` can have.
pub open spec fn max_record_len(level: nat) -> nat
    decreases level,
{
    if level == 0 {
        8
    } else {
        1 + 8 * max_record_len((level - 1) as nat)
    }
}

/// Where the record that starts at `at` for a node at `level` ends, reading
/// `buf` in pre-order; `None` when no well-formed record starts there.
pub open spec fn parse_node(buf: Seq<u16>, at: int, level: nat) -> Option<int>
    decreases level, 9nat,
{
    if level == 0 {
        if 0 <= at && at + 8 <= buf.len() {
            Some(at + 8)
        } else {
            None
        }
    } else if at < 0 || at >= buf.len() {
        None
    } else if buf[at] == MARKER_HOMOGENEOUS {
        if at + 2 <= buf.len() {
            Some(at + 2)
        } else {
            None
        }
    } else if buf[at] == MARKER_SPARSE {
        parse_children(buf, at + 1, (level - 1) as nat, 8)
    } else {
        None
    }
}

/// Where `k` consecutive records of nodes at `level` starting at `at` end.
pub open spec fn parse_children(buf: Seq<u16>, at: int, level: nat, k: nat) -> Option<int>
    decreases level + 1, k,
{
    if k == 0 {
        Some(at)
    } else {
        match parse_children(buf, at, level, (k - 1) as nat) {
            Some(p) => parse_node(buf, p, level),
            None => None,
        }
    }
}

/// The buffer holds exactly one tree of `depth`, with nothing missing or left
/// over: the records read in pre-order end at its end, or it is the single
/// homogeneous record a uniform tree of depth 0 is stored as.
pub open spec fn packed_verifies(depth: nat, buf: Seq<u16>) -> bool {
    ||| parse_node(buf, 0, depth) == Some(buf.len() as int)
    ||| depth == 0 && buf.len() == 2 && buf[0] == MARKER_HOMOGENEOUS
}

/// The builder never passes a level through, so every level it visits writes a
/// record of its own.
pub open spec fn never_samples<S, B: OctreeBuilder<S>>(b: B) -> bool {
    forall|pos: OctreeCreationPosition, state: S|
        !(#[trigger] b.spec_octant(pos, state) is SamplingRequired)
}

/// A packed sparse voxel octree: its depth and its pre-order buffer.
pub struct VoxelOctree {
    pub tree_depth: u32,
    pub buffer: Vec<u16>,
}

fn create_octree_data_linear<S, B: OctreeBuilder<S>>(
    pos: OctreeCreationPosition,
    builder: &B,
    buffer: &mut Vec<u16>,
    state: &S,
) -> (r: Option<u16>)
    requires
        builder.well_formed(),
        builder.spec_tree_depth() <= MAX_TREE_DEPTH,
        pos.inside(builder.spec_tree_depth()),
    ensures
        final(buffer)@ == old(buffer)@ + node_record(*builder, pos, *state),
        r == node_uniform(*builder, pos, *state),
    decreases pos.level, 9nat,
{
    if pos.level == 0 {
        let block = builder.get_block(&pos, state);
        let ghost start = buffer@;
        let mut uniform = true;
        let mut i: usize = 0;
        while i < 8
            invariant
                0 <= i <= 8,
                block == builder.spec_block(pos, *state),
                block@.len() == 8,
                buffer@ == start + block@.subrange(0, i as int),
                uniform == forall|j: int| 0 <= j < i ==> #[trigger] block@[j] == block@[0],
            decreases 8 - i,
        {
            buffer.push(block[i]);
            if block[i] != block[0] {
                uniform = false;
            }
            i = i + 1;
            proof {
                assert(block@.subrange(0, i as int) =~= block@.subrange(0, i - 1) + seq![block@[i - 1]]);
            }
        }
        proof {
            assert(block@.subrange(0, 8) =~= block@);
        }
        if uniform {
            Some(block[0])
        } else {
            None
        }
    } else {
        match builder.get_octant(&pos, state) {
            OctreeBuilderResult::Homogeneous(m) => {
                buffer.push(MARKER_HOMOGENEOUS);
                buffer.push(m);
                Some(m)
            },
            OctreeBuilderResult::Sparse => {
                buffer.push(MARKER_SPARSE);
                create_children(pos, builder, buffer, state)
            },
            OctreeBuilderResult::SamplingRequired(s) => {
                create_children(pos, builder, buffer, &s)
            },
        }
    }
}

fn create_children<S, B: OctreeBuilder<S>>(
    pos: OctreeCreationPosition,
    builder: &B,
    buffer: &mut Vec<u16>,
    state: &S,
) -> (r: Option<u16>)
    requires
        builder.well_formed(),
        builder.spec_tree_depth() <= MAX_TREE_DEPTH,
        pos.inside(builder.spec_tree_depth()),
        pos.level >= 1,
    ensures
        final(buffer)@ == old(buffer)@ + children_records(*builder, pos, *state, 8),
        r == children_uniform(*builder, pos, *state, 8),
    decreases pos.level, 8nat,
{
    let ghost start = buffer@;
    let mut uni: Option<u16> = None;
    let mut k: u8 = 0;
    while k < 8
        invariant
            k <= 8,
            builder.well_formed(),
            builder.spec_tree_depth() <= MAX_TREE_DEPTH,
            pos.inside(builder.spec_tree_depth()),
            pos.level >= 1,
            buffer@ == start + children_records(*builder, pos, *state, k as nat),
            uni == children_uniform(*builder, pos, *state, k as nat),
        decreases 8 - k,
    {
        proof {
            lemma_child_inside(pos, builder.spec_tree_depth(), k);
            lemma_inside_any_depth(pos, builder.spec_tree_depth());
        }
        let child = pos.child_unchecked(k);
        let u = create_octree_data_linear(child, builder, buffer, state);
        uni = if k == 0 {
            u
        } else {
            match (uni, u) {
                (Some(a), Some(c)) => if a == c {
                    Some(a)
                } else {
                    None
                },
                _ => None,
            }
        };
        proof {
            assert(start + children_records(*builder, pos, *state, (k + 1) as nat) =~= start
                + children_records(*builder, pos, *state, k as nat) + node_record(
                *builder,
                child,
                *state,
            ));
        }
        k = k + 1;
    }
    uni
}

proof fn lemma_inside_any_depth(pos: OctreeCreationPosition, depth: nat)
    requires
        pos.inside(depth),
    ensures
        pos.inside(MAX_TREE_DEPTH as nat),
{
    crate::builder::lemma_span_monotonic(depth, MAX_TREE_DEPTH as nat);
}


/// A node's record, placed anywhere in a buffer, parses as a node of its level
/// and ends where the record ends.
proof fn lemma_record_parses<S, B: OctreeBuilder<S>>(
    b: B,
    pos: OctreeCreationPosition,
    state: S,
    buf: Seq<u16>,
    at: int,
)
    requires
        never_samples(b),
        0 <= at,
        at + node_record(b, pos, state).len() <= buf.len(),
        buf.subrange(at, at + node_record(b, pos, state).len()) == node_record(b, pos, state),
    ensures
        parse_node(buf, at, pos.level as nat) == Some(at + node_record(b, pos, state).len()),
    decreases pos.level, 9nat,
{
    let rec = node_record(b, pos, state);
    if pos.level == 0 {
        assert(b.spec_block(pos, state)@.len() == 8);
    } else {
        assert(buf[at] == rec[0]);
        match b.spec_octant(pos, state) {
            OctreeBuilderResult::Homogeneous(m) => {},
            OctreeBuilderResult::Sparse => {
                let c = children_records(b, pos, state, 8);
                assert(rec =~= seq![MARKER_SPARSE] + c);
                assert(buf.subrange(at + 1, at + 1 + c.len()) =~= buf.subrange(
                    at,
                    at + rec.len(),
                ).subrange(1, rec.len() as int));
                assert(rec.subrange(1, rec.len() as int) =~= c);
                lemma_children_parse(b, pos, state, 8, buf, at + 1);
            },
            OctreeBuilderResult::SamplingRequired(s) => {},
        }
    }
}

proof fn lemma_children_parse<S, B: OctreeBuilder<S>>(
    b: B,
    pos: OctreeCreationPosition,
    state: S,
    k: nat,
    buf: Seq<u16>,
    at: int,
)
    requires
        never_samples(b),
        1 <= pos.level,
        0 <= at,
        at + children_records(b, pos, state, k).len() <= buf.len(),
        buf.subrange(at, at + children_records(b, pos, state, k).len()) == children_records(
            b,
            pos,
            state,
            k,
        ),
    ensures
        parse_children(buf, at, (pos.level - 1) as nat, k) == Some(
            at + children_records(b, pos, state, k).len(),
        ),
    decreases pos.level, k,
{
    if k > 0 {
        let prev = children_records(b, pos, state, (k - 1) as nat);
        let child = pos.spec_child((k - 1) as u8);
        let rec = node_record(b, child, state);
        let all = children_records(b, pos, state, k);
        assert(all == prev + rec);
        assert(buf.subrange(at, at + prev.len()) =~= prev) by {
            assert(buf.subrange(at, at + prev.len()) =~= buf.subrange(at, at + all.len()).subrange(
                0,
                prev.len() as int,
            ));
        }
        assert(buf.subrange(at + prev.len(), at + prev.len() + rec.len()) =~= rec) by {
            assert(buf.subrange(at + prev.len(), at + prev.len() + rec.len())
                =~= buf.subrange(at, at + all.len()).subrange(
                prev.len() as int,
                all.len() as int,
            ));
        }
        lemma_children_parse(b, pos, state, (k - 1) as nat, buf, at);
        lemma_record_parses(b, child, state, buf, at + prev.len());
    }
}


proof fn lemma_parse_bounds(buf: Seq<u16>, at: int, level: nat)
    ensures
        parse_node(buf, at, level) matches Some(e) ==> 0 <= at < e <= buf.len(),
    decreases level, 9nat,
{
    if 0 <= at < buf.len() {
        if level > 0 {
            lemma_children_bounds(buf, at + 1, (level - 1) as nat, 8);
            lemma_children_bounds(buf, at, (level - 1) as nat, 8);
        }
    }
}

proof fn lemma_children_bounds(buf: Seq<u16>, at: int, level: nat, k: nat)
    ensures
        parse_children(buf, at, level, k) matches Some(e) ==> at <= e && (k > 0 ==> 0 <= at < e
            <= buf.len()),
    decreases level + 1, k,
{
    if k > 0 {
        lemma_children_bounds(buf, at, level, (k - 1) as nat);
        if let Some(p) = parse_children(buf, at, level, (k - 1) as nat) {
            lemma_parse_bounds(buf, p, level);
        }
    }
}

/// A parse that succeeds on a prefix of a buffer gives the same result on the
/// whole buffer: it never reads past its own end.
proof fn lemma_parse_extend(t: Seq<u16>, buf: Seq<u16>, at: int, level: nat)
    requires
        t.len() <= buf.len(),
        t == buf.subrange(0, t.len() as int),
        parse_node(t, at, level) is Some,
    ensures
        parse_node(buf, at, level) == parse_node(t, at, level),
    decreases level, 9nat,
{
    if level > 0 {
        assert(t[at] == buf[at]);
        if t[at] == MARKER_SPARSE {
            lemma_children_extend(t, buf, at + 1, (level - 1) as nat, 8);
        }
    }
}

proof fn lemma_children_extend(t: Seq<u16>, buf: Seq<u16>, at: int, level: nat, k: nat)
    requires
        t.len() <= buf.len(),
        t == buf.subrange(0, t.len() as int),
        parse_children(t, at, level, k) is Some,
    ensures
        parse_children(buf, at, level, k) == parse_children(t, at, level, k),
    decreases level + 1, k,
{
    if k > 0 {
        lemma_children_extend(t, buf, at, level, (k - 1) as nat);
        let p = parse_children(t, at, level, (k - 1) as nat).unwrap();
        lemma_parse_extend(t, buf, p, level);
    }
}

/// Every buffer the constructor produces from a builder that passes no level
/// through passes the structural check, and cutting its last element off makes
/// the check fail.
pub proof fn lemma_packed_tree_verifies<S, B: OctreeBuilder<S>>(b: B)
    requires
        b.spec_tree_depth() <= MAX_TREE_DEPTH,
        never_samples(b),
    ensures
        packed_verifies(b.spec_tree_depth(), packed_tree(b)),
        !packed_verifies(b.spec_tree_depth(), packed_tree(b).drop_last()),
{
    let depth = b.spec_tree_depth();
    let root = OctreeCreationPosition::root(depth as u32);
    let state = b.spec_default_state();
    let buf = packed_tree(b);
    let t = buf.drop_last();
    match node_uniform(b, root, state) {
        Some(m) => {},
        None => {
            if depth == 0 {
                assert(b.spec_block(root, state)@.len() == 8);
            }
            assert(buf.subrange(0, buf.len() as int) =~= buf);
            lemma_record_parses(b, root, state, buf, 0);
            if parse_node(t, 0, depth) == Some(t.len() as int) {
                assert(t =~= buf.subrange(0, t.len() as int));
                lemma_parse_extend(t, buf, 0, depth);
            }
        },
    }
}

fn fill_homogeneous_top(buffer: &mut Vec<u16>, tree_depth: u32, material: u16)
    requires
        tree_depth <= MAX_TREE_DEPTH,
    ensures
        final(buffer)@ == seq![MARKER_HOMOGENEOUS, material],
{
    buffer.clear();
    buffer.push(MARKER_HOMOGENEOUS);
    buffer.push(material);
    proof {
        assert(buffer@ =~= seq![MARKER_HOMOGENEOUS, material]);
    }
}

proof fn lemma_max_record_len_grows(a: nat, b: nat)
    requires
        a <= b,
    ensures
        max_record_len(a) <= max_record_len(b),
    decreases b,
{
    if a < b {
        lemma_max_record_len_grows(a, (b - 1) as nat);
    }
}

/// The capacity reserved for a tree of `depth`: its largest possible buffer.
pub fn packed_capacity(depth: u32) -> (r: usize)
    requires
        depth <= MAX_TREE_DEPTH,
    ensures
        r == max_record_len(depth as nat),
{
    proof {
        reveal_with_fuel(max_record_len, 8);
        assert(max_record_len(MAX_TREE_DEPTH as nat) == 17076809);
    }
    let mut r: usize = 8;
    let mut i: u32 = 0;
    while i < depth
        invariant
            i <= depth <= MAX_TREE_DEPTH,
            r == max_record_len(i as nat),
            max_record_len(MAX_TREE_DEPTH as nat) == 17076809,
        decreases depth - i,
    {
        proof {
            lemma_max_record_len_grows((i + 1) as nat, MAX_TREE_DEPTH as nat);
        }
        r = 1 + 8 * r;
        i = i + 1;
    }
    r
}

impl VoxelOctree {
    pub fn new(tree_depth: u32, buffer: Vec<u16>) -> (r: VoxelOctree)
        ensures
            r.tree_depth == tree_depth,
            r.buffer@ == buffer@,
    {
        VoxelOctree { tree_depth, buffer }
    }

    /// Packs the tree the builder describes, depth first, into one buffer.
    pub fn from_builder<S, B: OctreeBuilder<S>>(builder: &B) -> (r: VoxelOctree)
        requires
            builder.well_formed(),
        ensures
            r.tree_depth == builder.spec_tree_depth(),
            r.buffer@ == packed_tree(*builder),
    {
        let tree_depth = builder.get_tree_depth();
        let mut buffer: Vec<u16> = Vec::with_capacity(packed_capacity(tree_depth));
        let state = builder.default_state();
        let root = OctreeCreationPosition::new(UVec3::new(0, 0, 0), tree_depth, 0);
        let res = create_octree_data_linear(root, builder, &mut buffer, &state);
        if let Some(m) = res {
            fill_homogeneous_top(&mut buffer, tree_depth, m);
        }
        VoxelOctree { tree_depth, buffer }
    }

    pub fn tree_depth(&self) -> (r: u32)
        ensures
            r == self.tree_depth,
    {
        self.tree_depth
    }

    pub fn buffer(&self) -> (r: &Vec<u16>)
        ensures
            r@ == self.buffer@,
    {
        &self.buffer
    }

    /// Hands the buffer over to the caller.
    pub fn into_buffer(self) -> (r: Vec<u16>)
        ensures
            r@ == self.buffer@,
    {
        self.buffer
    }

    /// Where the record for a node at `level` that starts at `at` ends.
    fn verify_level(&self, at: usize, level: u32) -> (r: Option<usize>)
        ensures
            r matches Some(e) ==> parse_node(self.buffer@, at as int, level as nat) == Some(
                e as int,
            ),
            r is None ==> parse_node(self.buffer@, at as int, level as nat) is None,
        decreases level, 9nat,
    {
        let len = self.buffer.len();
        if level == 0 {
            return if at <= len && len - at >= 8 {
                Some(at + 8)
            } else {
                None
            };
        }
        if at >= len {
            return None;
        }
        let t = self.buffer[at];
        if t == MARKER_HOMOGENEOUS {
            if len - at >= 2 {
                Some(at + 2)
            } else {
                None
            }
        } else if t == MARKER_SPARSE {
            self.verify_children(at + 1, level - 1)
        } else {
            None
        }
    }

    /// Where eight consecutive records for nodes at `level` starting at `at` end.
    fn verify_children(&self, at: usize, level: u32) -> (r: Option<usize>)
        requires
            at <= self.buffer@.len(),
        ensures
            r matches Some(e) ==> parse_children(self.buffer@, at as int, level as nat, 8) == Some(
                e as int,
            ),
            r is None ==> parse_children(self.buffer@, at as int, level as nat, 8) is None,
        decreases level + 1, 8nat,
    {
        let mut p: usize = at;
        let mut k: u32 = 0;
        while k < 8
            invariant
                k <= 8,
                at <= self.buffer@.len(),
                p <= self.buffer@.len(),
                parse_children(self.buffer@, at as int, level as nat, k as nat) == Some(p as int),
            decreases 8 - k,
        {
            match self.verify_level(p, level) {
                Some(e) => {
                    proof {
                        lemma_parse_bounds(self.buffer@, p as int, level as nat);
                    }
                    p = e;
                },
                None => {
                    proof {
                        lemma_children_none(self.buffer@, at as int, level as nat, (k + 1) as nat, 8);
                    }
                    return None;
                },
            }
            k = k + 1;
        }
        Some(p)
    }

    /// Checks that the buffer holds exactly one tree of the octree's depth: its
    /// records, read in pre-order, end exactly at the buffer's end.
    pub fn verify(&self) -> (r: Result<(), OctreeError>)
        ensures
            r == if packed_verifies(self.tree_depth as nat, self.buffer@) {
                Ok::<(), OctreeError>(())
            } else {
                Err(OctreeError::StructuralMismatch(self.buffer@.len() as usize))
            },
    {
        let len = self.buffer.len();
        let parsed = match self.verify_level(0, self.tree_depth) {
            Some(e) => e == len,
            None => false,
        };
        if parsed || (self.tree_depth == 0 && len == 2 && self.buffer[0] == MARKER_HOMOGENEOUS) {
            Ok(())
        } else {
            Err(OctreeError::StructuralMismatch(len))
        }
    }
}

/// Once the first `j` records fail to parse, so do the first `k` for `k >= j`.
proof fn lemma_children_none(buf: Seq<u16>, at: int, level: nat, j: nat, k: nat)
    requires
        j <= k,
        parse_children(buf, at, level, j) is None,
    ensures
        parse_children(buf, at, level, k) is None,
    decreases k,
{
    if j < k {
        lemma_children_none(buf, at, level, j, (k - 1) as nat);
    }
}


/// A source that holds one material everywhere packs into a single homogeneous
/// record of the tree's depth, whatever that depth is; above depth zero the
/// root itself is classified homogeneous.
pub proof fn lemma_uniform_source_packs_to_one_record(b: Array3DOctreeBuilder, m: u16)
    requires
        b.well_formed(),
        forall|x: int, y: int, z: int|
            grid_contains(*b.array, x, y, z) ==> #[trigger] grid_cells(*b.array)[(x, y, z)] == m,
    ensures
        b.tree_depth >= 1 ==> b.spec_octant(
            OctreeCreationPosition::root(b.tree_depth),
            b.default_material,
        ) == OctreeBuilderResult::<u16>::Homogeneous(m),
        packed_tree(b) == seq![MARKER_HOMOGENEOUS, m],
{
    let root = OctreeCreationPosition::root(b.tree_depth);
    let e = node_edge(b.tree_depth as nat) as int;
    assert(grid_contains(*b.array, 0, 0, 0)) by {
        lemma_span_bounds(b.tree_depth as nat);
    }
    assert forall|i: int, j: int, k: int| 0 <= i < e && 0 <= j < e && 0 <= k < e implies #[trigger] cell_at(
        *b.array,
        root,
        i,
        j,
        k,
    ) == m by {
        assert(grid_contains(*b.array, i, j, k));
    }
    if b.tree_depth == 0 {
        assert(e == 2);
        let blk = b.spec_block(root, b.default_material)@;
        assert forall|i: int| 0 <= i < 8 implies #[trigger] blk[i] == blk[0] by {
            assert(blk[i] == m);
        }
    }
}


/// The same holds of the builder that owns its grid.
pub proof fn lemma_uniform_owned_source_packs_to_one_record(b: VoxelOctreeBuilder, m: u16)
    requires
        b.well_formed(),
        forall|x: int, y: int, z: int|
            grid_contains(b.voxel_data, x, y, z) ==> #[trigger] grid_cells(b.voxel_data)[(x, y, z)] == m,
    ensures
        b.tree_depth >= 1 ==> b.spec_octant(
            OctreeCreationPosition::root(b.tree_depth),
            b.default_material,
        ) == OctreeBuilderResult::<u16>::Homogeneous(m),
        packed_tree(b) == seq![MARKER_HOMOGENEOUS, m],
{
    let root = OctreeCreationPosition::root(b.tree_depth);
    let e = node_edge(b.tree_depth as nat) as int;
    assert(grid_contains(b.voxel_data, 0, 0, 0)) by {
        lemma_span_bounds(b.tree_depth as nat);
    }
    assert forall|i: int, j: int, k: int| 0 <= i < e && 0 <= j < e && 0 <= k < e implies #[trigger] cell_at(
        b.voxel_data,
        root,
        i,
        j,
        k,
    ) == m by {
        assert(grid_contains(b.voxel_data, i, j, k));
    }
    if b.tree_depth == 0 {
        assert(e == 2);
        let blk = b.spec_block(root, b.default_material)@;
        assert forall|i: int| 0 <= i < 8 implies #[trigger] blk[i] == blk[0] by {
            assert(blk[i] == m);
        }
    }
}


/// The borrowing grid builder never passes a level through, so the structural
/// check accepts everything it builds.
pub proof fn lemma_array_builder_never_samples(b: Array3DOctreeBuilder)
    ensures
        never_samples(b),
{
}

/// The owning grid builder never passes a level through either.
pub proof fn lemma_owned_builder_never_samples(b: VoxelOctreeBuilder)
    ensures
        never_samples(b),
{
}

} // verus!

verus! {

/// Any region above the leaf level whose voxels all hold one material is
/// classified homogeneous in that material by the borrowing grid builder.
pub proof fn lemma_uniform_region_is_homogeneous(
    b: Array3DOctreeBuilder,
    pos: OctreeCreationPosition,
    state: u16,
    m: u16,
)
    requires
        forall|i: int, j: int, k: int|
            0 <= i < node_edge(pos.level as nat) && 0 <= j < node_edge(pos.level as nat) && 0 <= k
                < node_edge(pos.level as nat) ==> #[trigger] cell_at(*b.array, pos, i, j, k) == m,
    ensures
        b.spec_octant(pos, state) == OctreeBuilderResult::<u16>::Homogeneous(m),
{
    lemma_span_bounds(pos.level as nat);
    assert(cell_at(*b.array, pos, 0, 0, 0) == m);
}

/// The same holds of the builder that owns its grid.
pub proof fn lemma_uniform_owned_region_is_homogeneous(
    b: VoxelOctreeBuilder,
    pos: OctreeCreationPosition,
    state: u16,
    m: u16,
)
    requires
        forall|i: int, j: int, k: int|
            0 <= i < node_edge(pos.level as nat) && 0 <= j < node_edge(pos.level as nat) && 0 <= k
                < node_edge(pos.level as nat) ==> #[trigger] cell_at(b.voxel_data, pos, i, j, k) == m,
    ensures
        b.spec_octant(pos, state) == OctreeBuilderResult::<u16>::Homogeneous(m),
{
    lemma_span_bounds(pos.level as nat);
    assert(cell_at(b.voxel_data, pos, 0, 0, 0) == m);
}

} // verus!
