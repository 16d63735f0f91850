//! A rectangular cuboid of labeled cells with a deduplicating palette.
//!
//! A region is addressed by two arbitrary corner points; either corner may
//! carry the larger or smaller coordinate on any axis, and coordinates may
//! be negative. Cells are stored in one flat array ordered x fastest, then
//! z, then y; each entry is an index into a growth-only palette of distinct
//! cell values whose id 0 is the schema's "empty" value.

use crate::block::{
    air_view, clone_entities, clone_palette, clone_tile_entities, entities_view, palette_view,
    tile_entities_view, BlockState, BlockStateV, Entity, EntityV, TileEntity,
    TileEntityV,
};
use crate::codec::{pack, packed_ok, unpack, unpack_spec, word_count};
use crate::schema;
use crate::util::{sign, spec_box_volume, spec_extent, UVec3, Vec3};
use core::ops::RangeInclusive;
use vstd::arithmetic::div_mod::{
    lemma_div_by_multiple_is_strongly_ordered, lemma_div_pos_is_pos, lemma_fundamental_div_mod,
    lemma_fundamental_div_mod_converse, lemma_mod_division_less_than_divisor,
};
use vstd::math::abs;
use vstd::pervasive::VecAdditionalExecFns;
use vstd::prelude::*;

verus! {

/// A cuboid of labeled cells, its palette, and its auxiliary records.
#[derive(Clone, Debug, PartialEq)]
pub struct Region {
    pub name: String,
    pub corner1: Vec3,
    pub corner2: Vec3,
    pub tile_entities: Vec<TileEntity>,
    pub entities: Vec<Entity>,
    palette: Vec<BlockState>,
    blocks: Vec<usize>,
}

/// Mathematical value of a `Region`.
#[verifier::ext_equal]
pub ghost struct RegionV {
    pub name: Seq<char>,
    pub corner1: Vec3,
    pub corner2: Vec3,
    pub palette: Seq<BlockStateV>,
    pub blocks: Seq<usize>,
    pub tile_entities: Seq<TileEntityV>,
    pub entities: Seq<EntityV>,
}

impl View for Region {
    type V = RegionV;

    closed spec fn view(&self) -> RegionV {
        RegionV {
            name: self.name@,
            corner1: self.corner1,
            corner2: self.corner2,
            palette: palette_view(self.palette@),
            blocks: self.blocks@,
            tile_entities: tile_entities_view(self.tile_entities@),
            entities: entities_view(self.entities@),
        }
    }
}

impl RegionV {
    /// Smallest x coordinate of the box.
    pub open spec fn min_x(self) -> int {
        if self.corner1.x <= self.corner2.x {
            self.corner1.x as int
        } else {
            self.corner2.x as int
        }
    }

    /// Largest x coordinate of the box.
    pub open spec fn max_x(self) -> int {
        if self.corner1.x <= self.corner2.x {
            self.corner2.x as int
        } else {
            self.corner1.x as int
        }
    }

    /// Smallest y coordinate of the box.
    pub open spec fn min_y(self) -> int {
        if self.corner1.y <= self.corner2.y {
            self.corner1.y as int
        } else {
            self.corner2.y as int
        }
    }

    /// Largest y coordinate of the box.
    pub open spec fn max_y(self) -> int {
        if self.corner1.y <= self.corner2.y {
            self.corner2.y as int
        } else {
            self.corner1.y as int
        }
    }

    /// Smallest z coordinate of the box.
    pub open spec fn min_z(self) -> int {
        if self.corner1.z <= self.corner2.z {
            self.corner1.z as int
        } else {
            self.corner2.z as int
        }
    }

    /// Largest z coordinate of the box.
    pub open spec fn max_z(self) -> int {
        if self.corner1.z <= self.corner2.z {
            self.corner2.z as int
        } else {
            self.corner1.z as int
        }
    }

    /// Extent of the box along x.
    pub open spec fn size_x(self) -> int {
        spec_extent(self.corner1.x as int, self.corner2.x as int)
    }

    /// Extent of the box along y.
    pub open spec fn size_y(self) -> int {
        spec_extent(self.corner1.y as int, self.corner2.y as int)
    }

    /// Extent of the box along z.
    pub open spec fn size_z(self) -> int {
        spec_extent(self.corner1.z as int, self.corner2.z as int)
    }

    /// Number of cells of the box.
    pub open spec fn volume(self) -> int {
        spec_box_volume(self.corner1, self.corner2)
    }

    /// The corners span a box whose extents and volume fit the machine
    /// limits every operation relies on.
    pub open spec fn bounds_ok(self) -> bool {
        &&& abs(self.corner1.x - self.corner2.x) <= i32::MAX - 1
        &&& abs(self.corner1.y - self.corner2.y) <= i32::MAX - 1
        &&& abs(self.corner1.z - self.corner2.z) <= i32::MAX - 1
        &&& self.volume() <= u32::MAX
    }

    /// `p` lies inside the box.
    pub open spec fn in_box(self, p: Vec3) -> bool {
        &&& self.min_x() <= p.x <= self.max_x()
        &&& self.min_y() <= p.y <= self.max_y()
        &&& self.min_z() <= p.z <= self.max_z()
    }

    /// Linear offset of a position: x runs fastest, then z, then y.
    pub open spec fn pos_index(self, p: Vec3) -> int {
        (p.y - self.min_y()) * (self.size_x() * self.size_z()) + (p.z - self.min_z())
            * self.size_x() + (p.x - self.min_x())
    }

    /// Position of a linear offset: the inverse of `pos_index` on the box.
    pub open spec fn index_pos(self, i: int) -> Vec3 {
        Vec3 {
            x: (self.min_x() + i % self.size_x()) as i32,
            y: (self.min_y() + i / (self.size_x() * self.size_z())) as i32,
            z: (self.min_z() + (i / self.size_x()) % self.size_z()) as i32,
        }
    }

    /// Every cell entry indexes the palette, the cell array covers the box,
    /// and the box respects the machine limits.
    pub open spec fn wf(self) -> bool {
        &&& self.bounds_ok()
        &&& self.blocks.len() == self.volume()
        &&& 1 <= self.palette.len() <= 0x1_0000_0000
        &&& forall|i: int| 0 <= i < self.blocks.len() ==> (#[trigger] self.blocks[i] as int) < self.palette.len()
    }

    /// The palette holds no two structurally equal values.
    pub open spec fn palette_nodup(self) -> bool {
        forall|i: int, j: int|
            0 <= i < j < self.palette.len() ==> self.palette[i] != self.palette[j]
    }

    /// No two tile entity records carry the same position.
    pub open spec fn tile_keys_unique(self) -> bool {
        forall|i: int, j: int|
            0 <= i < j < self.tile_entities.len() ==> self.tile_entities[i].pos
                != self.tile_entities[j].pos
    }
}

/// Some palette entry is structurally equal to `b`.
pub open spec fn palette_contains(pal: Seq<BlockStateV>, b: BlockStateV) -> bool {
    exists|j: int| 0 <= j < pal.len() && pal[j] == b
}

/// `j` is the first palette entry structurally equal to `b`.
pub open spec fn is_first_match(pal: Seq<BlockStateV>, b: BlockStateV, j: int) -> bool {
    &&& 0 <= j < pal.len()
    &&& pal[j] == b
    &&& forall|l: int| 0 <= l < j ==> pal[l] != b
}

/// Index of the first palette entry structurally equal to `b`.
pub open spec fn palette_first_index(pal: Seq<BlockStateV>, b: BlockStateV) -> int {
    choose|j: int| is_first_match(pal, b, j)
}

/// The first match is unique, so it is what `palette_first_index` denotes.
pub proof fn lemma_first_match_determines(pal: Seq<BlockStateV>, b: BlockStateV, j: int)
    requires
        is_first_match(pal, b, j),
    ensures
        palette_first_index(pal, b) == j,
{
    assert(exists|l: int| is_first_match(pal, b, l));
    let j2 = palette_first_index(pal, b);
    if j2 < j {
        assert(pal[j2] != b);
    }
    if j2 > j {
        assert(pal[j] != b);
    }
}

/// Some tile entity record carries the position `pos`.
pub open spec fn te_contains(s: Seq<TileEntityV>, pos: UVec3) -> bool {
    exists|j: int| 0 <= j < s.len() && s[j].pos == pos
}

/// `j` is the first tile entity record at position `pos`.
pub open spec fn te_is_first_match(s: Seq<TileEntityV>, pos: UVec3, j: int) -> bool {
    &&& 0 <= j < s.len()
    &&& s[j].pos == pos
    &&& forall|l: int| 0 <= l < j ==> s[l].pos != pos
}

/// Index of the first tile entity record at position `pos`.
pub open spec fn te_first_index(s: Seq<TileEntityV>, pos: UVec3) -> int {
    choose|j: int| te_is_first_match(s, pos, j)
}

/// The first tile entity match is unique, so it is what `te_first_index`
/// denotes.
pub proof fn lemma_te_first_match_determines(s: Seq<TileEntityV>, pos: UVec3, j: int)
    requires
        te_is_first_match(s, pos, j),
    ensures
        te_first_index(s, pos) == j,
{
    assert(exists|l: int| te_is_first_match(s, pos, l));
    let j2 = te_first_index(s, pos);
    if j2 < j {
        assert(s[j2].pos != pos);
    }
    if j2 > j {
        assert(s[j].pos != pos);
    }
}

/// How one `set_block` call changes a region: the cell at `pos` is set to
/// the id of `b`, the palette gains `b` exactly when no structurally equal
/// value was present, and everything else is unchanged.
pub open spec fn set_block_rel(pre: RegionV, post: RegionV, pos: Vec3, b: BlockStateV) -> bool {
    &&& post.name == pre.name
    &&& post.corner1 == pre.corner1
    &&& post.corner2 == pre.corner2
    &&& post.tile_entities == pre.tile_entities
    &&& post.entities == pre.entities
    &&& if palette_contains(pre.palette, b) {
        post.palette == pre.palette && post.blocks == pre.blocks.update(
            pre.pos_index(pos),
            palette_first_index(pre.palette, b) as usize,
        )
    } else {
        post.palette == pre.palette.push(b) && post.blocks == pre.blocks.update(
            pre.pos_index(pos),
            pre.palette.len() as usize,
        )
    }
}

/// Number of entries of `s` that are not 0.
pub open spec fn count_nonzero(s: Seq<usize>) -> int
    decreases s.len(),
{
    if s.len() == 0 {
        0
    } else {
        count_nonzero(s.drop_last()) + if s.last() != 0 {
            1int
        } else {
            0int
        }
    }
}

/// A sequence of zeros has no nonzero entries.
proof fn lemma_count_nonzero_all_zero(s: Seq<usize>)
    requires
        forall|i: int| 0 <= i < s.len() ==> #[trigger] s[i] == 0,
    ensures
        count_nonzero(s) == 0,
    decreases s.len(),
{
    if s.len() > 0 {
        lemma_count_nonzero_all_zero(s.drop_last());
    }
}

/// A fresh region reads the empty value everywhere and counts no occupied
/// cell.
pub proof fn lemma_fresh_region_default(r: RegionV)
    requires
        r.bounds_ok(),
        r.blocks.len() == r.volume(),
        r.palette =~= seq![air_view()],
        forall|i: int| 0 <= i < r.blocks.len() ==> #[trigger] r.blocks[i] == 0,
    ensures
        count_nonzero(r.blocks) == 0,
        forall|p: Vec3|
            r.in_box(p) ==> r.palette[#[trigger] r.blocks[r.pos_index(p)] as int] == air_view(),
{
    lemma_count_nonzero_all_zero(r.blocks);
    assert forall|p: Vec3| r.in_box(p) implies r.palette[#[trigger] r.blocks[r.pos_index(p)] as int]
        == air_view() by {
        lemma_pos_index_round_trip(r, p);
    }
}

/// Setting structurally equal values at two positions grows the palette by
/// at most one entry, and both cells receive the same id.
pub proof fn lemma_palette_dedup(
    r0: RegionV,
    r1: RegionV,
    r2: RegionV,
    p1: Vec3,
    p2: Vec3,
    b: BlockStateV,
)
    requires
        r0.wf(),
        r0.in_box(p1),
        r0.in_box(p2),
        set_block_rel(r0, r1, p1, b),
        set_block_rel(r1, r2, p2, b),
    ensures
        r1.palette.len() <= r0.palette.len() + 1,
        r2.palette == r1.palette,
        r2.blocks[r1.pos_index(p2)] == r1.blocks[r0.pos_index(p1)],
{
    lemma_pos_index_round_trip(r0, p1);
    lemma_pos_index_round_trip(r0, p2);
    if palette_contains(r0.palette, b) {
        let j = palette_first_index(r0.palette, b);
        assert(palette_contains(r1.palette, b));
    } else {
        let j = r0.palette.len() as int;
        assert(r1.palette[j] == b);
        assert(palette_contains(r1.palette, b));
        assert(is_first_match(r1.palette, b, j)) by {
            assert(forall|l: int| 0 <= l < j ==> r1.palette[l] == r0.palette[l]);
        }
        lemma_first_match_determines(r1.palette, b, j);
    }
}

/// Decomposing a linear offset `i` of a box with extents `sx`, `sy`, `sz`
/// into per-axis offsets, and recomposing them, gives `i` back.
proof fn lemma_index_decompose(i: int, sx: int, sy: int, sz: int)
    requires
        1 <= sx,
        1 <= sy,
        1 <= sz,
        0 <= i < sx * sy * sz,
    ensures
        0 <= i % sx < sx,
        0 <= (i / sx) % sz < sz,
        0 <= i / (sx * sz) < sy,
        i / (sx * sz) * (sx * sz) + ((i / sx) % sz) * sx + i % sx == i,
{
    lemma_fundamental_div_mod(i, sx);
    lemma_mod_division_less_than_divisor(i, sx);
    lemma_div_pos_is_pos(i, sx);
    let q1 = i / sx;
    let x = i % sx;
    lemma_fundamental_div_mod(q1, sz);
    lemma_mod_division_less_than_divisor(q1, sz);
    lemma_div_pos_is_pos(q1, sz);
    let q2 = q1 / sz;
    let z = q1 % sz;
    assert(i == (sx * sz) * q2 + (z * sx + x) && 0 <= z * sx + x < sx * sz) by (nonlinear_arith)
        requires
            i == sx * q1 + x,
            q1 == sz * q2 + z,
            0 <= x < sx,
            0 <= z < sz,
            1 <= sx,
            1 <= sz,
    ;
    assert(q2 == q2 * 1) by (nonlinear_arith);
    lemma_fundamental_div_mod_converse(i, sx * sz, q2, z * sx + x);
    assert(q2 < sy) by (nonlinear_arith)
        requires
            i == (sx * sz) * q2 + (z * sx + x),
            0 <= z * sx + x,
            i < sx * sy * sz,
            1 <= sx,
            1 <= sy,
            1 <= sz,
            0 <= q2,
    ;
    assert(q2 * (sx * sz) + z * sx + x == i) by (nonlinear_arith)
        requires
            i == (sx * sz) * q2 + (z * sx + x),
    ;
}

/// Composing per-axis offsets into a linear offset and decomposing it gives
/// the offsets back.
proof fn lemma_pos_decompose(x: int, y: int, z: int, sx: int, sy: int, sz: int)
    requires
        0 <= x < sx,
        0 <= y < sy,
        0 <= z < sz,
    ensures
        0 <= y * (sx * sz) + z * sx + x < sx * sy * sz,
        (y * (sx * sz) + z * sx + x) % sx == x,
        ((y * (sx * sz) + z * sx + x) / sx) % sz == z,
        (y * (sx * sz) + z * sx + x) / (sx * sz) == y,
{
    let i = y * (sx * sz) + z * sx + x;
    assert(i == (y * sz + z) * sx + x && 0 <= y * sz + z && i == y * (sx * sz) + (z * sx + x) && 0
        <= z * sx + x < sx * sz && i < sx * sy * sz) by (nonlinear_arith)
        requires
            i == y * (sx * sz) + z * sx + x,
            0 <= x < sx,
            0 <= y < sy,
            0 <= z < sz,
    ;
    lemma_fundamental_div_mod_converse(i, sx, y * sz + z, x);
    lemma_fundamental_div_mod_converse(i / sx, sz, y, z);
    lemma_fundamental_div_mod_converse(i, sx * sz, y, z * sx + x);
}

/// The linear offset is a bijection between the box and `[0, volume)`:
/// decoding the offset of a position gives the position back.
pub proof fn lemma_pos_index_round_trip(r: RegionV, p: Vec3)
    requires
        r.bounds_ok(),
        r.in_box(p),
    ensures
        0 <= r.pos_index(p) < r.volume(),
        r.index_pos(r.pos_index(p)) == p,
{
    lemma_pos_decompose(
        p.x - r.min_x(),
        p.y - r.min_y(),
        p.z - r.min_z(),
        r.size_x(),
        r.size_y(),
        r.size_z(),
    );
}

/// The linear offset is a bijection between the box and `[0, volume)`:
/// encoding the position of an offset gives the offset back.
pub proof fn lemma_index_pos_round_trip(r: RegionV, i: int)
    requires
        r.bounds_ok(),
        0 <= i < r.volume(),
    ensures
        r.in_box(r.index_pos(i)),
        r.pos_index(r.index_pos(i)) == i,
{
    lemma_index_decompose(i, r.size_x(), r.size_y(), r.size_z());
}

/// Swapping the two corners describes the same box: the same volume and the
/// same set of addressable positions.
pub proof fn lemma_corner_order_invariance(a: RegionV, b: RegionV)
    requires
        a.corner1 == b.corner2,
        a.corner2 == b.corner1,
    ensures
        a.volume() == b.volume(),
        forall|p: Vec3| a.in_box(p) <==> b.in_box(p),
{
}

impl Region {
    /// A fresh region over the box spanned by two corners, in any order:
    /// the palette holds only the empty value and every cell reads it.
    pub fn new(name: String, corner1: Vec3, corner2: Vec3) -> (r: Region)
        requires
            abs(corner1.x - corner2.x) <= i32::MAX - 1,
            abs(corner1.y - corner2.y) <= i32::MAX - 1,
            abs(corner1.z - corner2.z) <= i32::MAX - 1,
            spec_box_volume(corner1, corner2) <= u32::MAX,
        ensures
            r@.name == name@,
            r@.corner1 == corner1,
            r@.corner2 == corner2,
            r@.palette =~= seq![air_view()],
            r@.blocks.len() == spec_box_volume(corner1, corner2),
            forall|i: int| 0 <= i < r@.blocks.len() ==> #[trigger] r@.blocks[i] == 0,
            r@.tile_entities =~= Seq::<TileEntityV>::empty(),
            r@.entities =~= Seq::<EntityV>::empty(),
            r@.wf(),
            r@.palette_nodup(),
            r@.tile_keys_unique(),
    {
        let size = corner1.volume_to(&corner2);
        let vol = size as usize;
        let mut blocks: Vec<usize> = Vec::new();
        let mut i: usize = 0;
        while i < vol
            invariant
                i <= vol,
                blocks@.len() == i,
                forall|j: int| 0 <= j < i ==> #[trigger] blocks@[j] == 0,
            decreases vol - i,
        {
            blocks.push(0);
            i += 1;
        }
        let mut palette: Vec<BlockState> = Vec::new();
        palette.push(BlockState::air());
        Region {
            name,
            corner1,
            corner2,
            tile_entities: Vec::new(),
            entities: Vec::new(),
            palette,
            blocks,
        }
    }

    /// Smallest x coordinate of the box.
    pub fn min_x(&self) -> (r: i32)
        ensures
            r as int == self@.min_x(),
    {
        if self.corner1.x <= self.corner2.x {
            self.corner1.x
        } else {
            self.corner2.x
        }
    }

    /// Largest x coordinate of the box.
    pub fn max_x(&self) -> (r: i32)
        ensures
            r as int == self@.max_x(),
    {
        if self.corner1.x <= self.corner2.x {
            self.corner2.x
        } else {
            self.corner1.x
        }
    }

    /// Smallest y coordinate of the box.
    pub fn min_y(&self) -> (r: i32)
        ensures
            r as int == self@.min_y(),
    {
        if self.corner1.y <= self.corner2.y {
            self.corner1.y
        } else {
            self.corner2.y
        }
    }

    /// Largest y coordinate of the box.
    pub fn max_y(&self) -> (r: i32)
        ensures
            r as int == self@.max_y(),
    {
        if self.corner1.y <= self.corner2.y {
            self.corner2.y
        } else {
            self.corner1.y
        }
    }

    /// Smallest z coordinate of the box.
    pub fn min_z(&self) -> (r: i32)
        ensures
            r as int == self@.min_z(),
    {
        if self.corner1.z <= self.corner2.z {
            self.corner1.z
        } else {
            self.corner2.z
        }
    }

    /// Largest z coordinate of the box.
    pub fn max_z(&self) -> (r: i32)
        ensures
            r as int == self@.max_z(),
    {
        if self.corner1.z <= self.corner2.z {
            self.corner2.z
        } else {
            self.corner1.z
        }
    }

    /// The box's x coordinates, smallest to largest.
    pub fn x_range(&self) -> (r: RangeInclusive<i32>)
        ensures
            r@.start as int == self@.min_x(),
            r@.end as int == self@.max_x(),
    {
        RangeInclusive::new(self.min_x(), self.max_x())
    }

    /// The box's y coordinates, smallest to largest.
    pub fn y_range(&self) -> (r: RangeInclusive<i32>)
        ensures
            r@.start as int == self@.min_y(),
            r@.end as int == self@.max_y(),
    {
        RangeInclusive::new(self.min_y(), self.max_y())
    }

    /// The box's z coordinates, smallest to largest.
    pub fn z_range(&self) -> (r: RangeInclusive<i32>)
        ensures
            r@.start as int == self@.min_z(),
            r@.end as int == self@.max_z(),
    {
        RangeInclusive::new(self.min_z(), self.max_z())
    }

    /// Number of cells of the box.
    pub fn volume(&self) -> (r: u32)
        requires
            self@.bounds_ok(),
        ensures
            r == self@.volume(),
    {
        self.corner1.volume_to(&self.corner2)
    }

    /// Per-axis extent of the box.
    fn size(&self) -> (r: UVec3)
        requires
            self@.bounds_ok(),
        ensures
            r.x == self@.size_x(),
            r.y == self@.size_y(),
            r.z == self@.size_z(),
    {
        self.corner1.size_to(&self.corner2)
    }

    /// The corner of the box with the smallest coordinate on every axis.
    fn blocks_origin(&self) -> (r: Vec3)
        ensures
            r.x as int == self@.min_x(),
            r.y as int == self@.min_y(),
            r.z as int == self@.min_z(),
    {
        Vec3 { x: self.min_x(), y: self.min_y(), z: self.min_z() }
    }

    /// Linear offset of a position inside the box.
    pub fn pos_to_index(&self, pos: Vec3) -> (r: usize)
        requires
            self@.bounds_ok(),
            self@.in_box(pos),
        ensures
            r == self@.pos_index(pos),
            r < self@.volume(),
    {
        proof {
            lemma_pos_index_round_trip(self@, pos);
        }
        let origin = self.blocks_origin();
        let off = pos.minus(&origin).abs();
        let s = self.size();
        let ghost sx = self@.size_x();
        let ghost sy = self@.size_y();
        let ghost sz = self@.size_z();
        proof {
            assert(off.x < sx && off.y < sy && off.z < sz);
            assert((off.y as int) * ((sx * sz) as int) + (off.z as int) * sx + off.x
                == self@.pos_index(pos)) by (nonlinear_arith)
                requires
                    off.x == pos.x - self@.min_x(),
                    off.y == pos.y - self@.min_y(),
                    off.z == pos.z - self@.min_z(),
                    sx == self@.size_x(),
                    sz == self@.size_z(),
                    self@.pos_index(pos) == (pos.y - self@.min_y()) * (sx * sz) + (pos.z
                        - self@.min_z()) * sx + (pos.x - self@.min_x()),
            ;
            assert(sx * sz <= self@.volume()) by (nonlinear_arith)
                requires
                    sx >= 1,
                    sy >= 1,
                    sz >= 1,
                    self@.volume() == sx * sy * sz,
            ;
        }
        let idx: u64 = (off.y as u64) * ((s.x as u64) * (s.z as u64)) + (off.z as u64) * (
        s.x as u64) + (off.x as u64);
        proof {
            assert(usize::MAX >= u32::MAX);
        }
        idx as usize
    }

    /// Position of a linear offset inside the box.
    pub fn index_to_pos(&self, index: usize) -> (r: Vec3)
        requires
            self@.bounds_ok(),
            index < self@.volume(),
        ensures
            r == self@.index_pos(index as int),
            self@.in_box(r),
            self@.pos_index(r) == index,
    {
        let ghost sx = self@.size_x();
        let ghost sy = self@.size_y();
        let ghost sz = self@.size_z();
        proof {
            lemma_index_pos_round_trip(self@, index as int);
            lemma_index_decompose(index as int, sx, sy, sz);
            assert(1 <= sx * sz <= self@.volume() && sz * sx == sx * sz) by (nonlinear_arith)
                requires
                    sx >= 1,
                    sy >= 1,
                    sz >= 1,
                    self@.volume() == sx * sy * sz,
            ;
            assert(self@.max_x() - self@.min_x() + 1 == sx);
            assert(self@.max_y() - self@.min_y() + 1 == sy);
            assert(self@.max_z() - self@.min_z() + 1 == sz);
        }
        let i = index as u32;
        let s = self.size();
        let x: u32 = i % s.x;
        let z: u32 = (i / s.x) % s.z;
        let y: u32 = i / (s.z * s.x);
        let origin = self.blocks_origin();
        Vec3 {
            x: origin.x + (x as i32),
            y: origin.y + (y as i32),
            z: origin.z + (z as i32),
        }
    }

    /// The cell value at a position inside the box.
    pub fn get_block(&self, pos: Vec3) -> (r: &BlockState)
        requires
            self@.wf(),
            self@.in_box(pos),
        ensures
            r@ == self@.palette[self@.blocks[self@.pos_index(pos)] as int],
    {
        let i = self.pos_to_index(pos);
        let id = self.blocks[i];
        &self.palette[id]
    }

    /// Set the cell at a position inside the box to `block`, reusing the id
    /// of a structurally equal palette entry if one exists and appending a
    /// new entry otherwise. A new entry requires room under the palette
    /// bound that keeps every id within the serialized form's bit range.
    pub fn set_block(&mut self, pos: Vec3, block: BlockState)
        requires
            old(self)@.wf(),
            old(self)@.in_box(pos),
            palette_contains(old(self)@.palette, block@) || old(self)@.palette.len()
                < 0x1_0000_0000,
        ensures
            final(self)@.wf(),
            set_block_rel(old(self)@, final(self)@, pos, block@),
            old(self)@.palette_nodup() ==> final(self)@.palette_nodup(),
    {
        let ghost bv = block@;
        let ghost pre = self@;
        let blocks_idx = self.pos_to_index(pos);
        match find_palette(&self.palette, &block) {
            Some(j) => {
                proof {
                    lemma_first_match_determines(pre.palette, bv, j as int);
                }
                self.blocks.set(blocks_idx, j);
            },
            None => {
                let id = self.palette.len();
                self.palette.push(block);
                proof {
                    assert(palette_view(self.palette@) =~= pre.palette.push(bv));
                }
                self.blocks.set(blocks_idx, id);
            },
        }
    }

    /// Number of cells whose id is not the default 0.
    pub fn total_blocks(&self) -> (r: usize)
        ensures
            r == count_nonzero(self@.blocks),
    {
        let n = self.blocks.len();
        let mut count: usize = 0;
        let mut i: usize = 0;
        while i < n
            invariant
                n == self@.blocks.len(),
                i <= n,
                count <= i,
                count == count_nonzero(self@.blocks.take(i as int)),
            decreases n - i,
        {
            proof {
                assert(self@.blocks.take(i + 1).drop_last() =~= self@.blocks.take(i as int));
                assert(self@.blocks.take(i + 1).last() == self@.blocks[i as int]);
            }
            if self.blocks[i] != 0 {
                count += 1;
            }
            i += 1;
        }
        proof {
            assert(self@.blocks.take(n as int) =~= self@.blocks);
        }
        count
    }

    /// The first tile entity record at `pos`, if any.
    pub fn get_tile_entity(&self, pos: UVec3) -> (r: Option<&TileEntity>)
        ensures
            match r {
                Some(t) => te_is_first_match(
                    self@.tile_entities,
                    pos,
                    te_first_index(self@.tile_entities, pos),
                ) && t@ == self@.tile_entities[te_first_index(self@.tile_entities, pos)],
                None => !te_contains(self@.tile_entities, pos),
            },
    {
        match find_tile_entity(&self.tile_entities, pos) {
            Some(j) => {
                proof {
                    lemma_te_first_match_determines(self@.tile_entities, pos, j as int);
                }
                Some(&self.tile_entities[j])
            },
            None => None,
        }
    }

    /// Store a tile entity record: replace the first record at the same
    /// position, or append the record if the position is new.
    pub fn set_tile_entity(&mut self, tile_entity: TileEntity)
        ensures
            old(self)@.tile_keys_unique() ==> final(self)@.tile_keys_unique(),
            final(self)@ =~= (RegionV {
                tile_entities: if te_contains(old(self)@.tile_entities, tile_entity@.pos) {
                    old(self)@.tile_entities.update(
                        te_first_index(old(self)@.tile_entities, tile_entity@.pos),
                        tile_entity@,
                    )
                } else {
                    old(self)@.tile_entities.push(tile_entity@)
                },
                ..old(self)@
            }),
    {
        let ghost tv = tile_entity@;
        let ghost pre = tile_entities_view(self.tile_entities@);
        match find_tile_entity(&self.tile_entities, tile_entity.pos) {
            Some(j) => {
                proof {
                    lemma_te_first_match_determines(pre, tv.pos, j as int);
                }
                self.tile_entities.set(j, tile_entity);
                proof {
                    assert(tile_entities_view(self.tile_entities@) =~= pre.update(j as int, tv));
                    let post = pre.update(j as int, tv);
                    if old(self)@.tile_keys_unique() {
                        assert(pre == old(self)@.tile_entities);
                        assert forall|i1: int, j1: int|
                            0 <= i1 < j1 < post.len() implies post[i1].pos != post[j1].pos by {
                            assert(old(self)@.tile_entities[i1].pos != old(
                                self,
                            )@.tile_entities[j1].pos);
                            assert(pre[i1].pos != pre[j1].pos);
                            assert(pre[j as int].pos == tv.pos);
                            if i1 == j {
                                assert(post[i1] == tv && post[j1] == pre[j1]);
                            } else if j1 == j {
                                assert(post[i1] == pre[i1] && post[j1] == tv);
                            } else {
                                assert(post[i1] == pre[i1] && post[j1] == pre[j1]);
                            }
                        }
                    }
                }
            },
            None => {
                self.tile_entities.push(tile_entity);
                proof {
                    assert(tile_entities_view(self.tile_entities@) =~= pre.push(tv));
                    if old(self)@.tile_keys_unique() {
                        assert(pre == old(self)@.tile_entities);
                        let post = pre.push(tv);
                        assert forall|i1: int, j1: int|
                            0 <= i1 < j1 < post.len() implies post[i1].pos != post[j1].pos by {
                            if j1 == pre.len() {
                                assert(post[i1] == pre[i1]);
                                assert(pre[i1].pos != tv.pos);
                            } else {
                                assert(old(self)@.tile_entities[i1].pos != old(
                                    self,
                                )@.tile_entities[j1].pos);
                            }
                        }
                    }
                }
            },
        }
    }

    /// Remove the first tile entity record at `pos`; without one, change
    /// nothing.
    pub fn remove_tile_entity(&mut self, pos: UVec3)
        ensures
            old(self)@.tile_keys_unique() ==> final(self)@.tile_keys_unique(),
            final(self)@ =~= (RegionV {
                tile_entities: if te_contains(old(self)@.tile_entities, pos) {
                    old(self)@.tile_entities.remove(
                        te_first_index(old(self)@.tile_entities, pos),
                    )
                } else {
                    old(self)@.tile_entities
                },
                ..old(self)@
            }),
    {
        match find_tile_entity(&self.tile_entities, pos) {
            Some(j) => {
                proof {
                    lemma_te_first_match_determines(
                        tile_entities_view(self.tile_entities@),
                        pos,
                        j as int,
                    );
                }
                let ghost pre = tile_entities_view(self.tile_entities@);
                self.tile_entities.remove(j);
                proof {
                    assert(tile_entities_view(self.tile_entities@) =~= pre.remove(j as int));
                    if old(self)@.tile_keys_unique() {
                        assert(pre == old(self)@.tile_entities);
                        let post = pre.remove(j as int);
                        assert forall|i1: int, j1: int|
                            0 <= i1 < j1 < post.len() implies post[i1].pos != post[j1].pos by {
                            let i2: int = if i1 < j { i1 } else { i1 + 1 };
                            let j2: int = if j1 < j { j1 } else { j1 + 1 };
                            assert(post[i1] == pre[i2] && post[j1] == pre[j2]);
                            assert(old(self)@.tile_entities[i2].pos != old(
                                self,
                            )@.tile_entities[j2].pos);
                        }
                    }
                }
            },
            None => {},
        }
    }
}

/// Cell identifiers of `n` cells need `(n - 1) / per + 1` words, none for
/// no cell.
fn words_needed(n: usize, w: u64) -> (r: usize)
    requires
        2 <= w <= 32,
    ensures
        r == word_count(n as int, w),
{
    let per: usize = (64 / w) as usize;
    proof {
        crate::codec::lemma_per_word_bounds(w);
        crate::codec::lemma_word_count_split(n as int, w);
    }
    if n == 0 {
        proof {
            lemma_fundamental_div_mod_converse(per as int - 1, per as int, 0, per as int - 1);
        }
        0
    } else {
        proof {
            crate::codec::lemma_div_mod_step(n as int - 1, per as int);
            lemma_mod_division_less_than_divisor(n as int - 1, per as int);
            lemma_div_pos_is_pos(n as int - 1, per as int);
        }
        (n - 1) / per + 1
    }
}

impl Region {
    /// The minimum bit width, at least 2, that addresses the whole palette.
    pub fn num_bits(&self) -> (r: u64)
        requires
            1 <= self@.palette.len() <= 0x1_0000_0000,
        ensures
            is_min_bits(self@.palette.len() as int, r),
            r == min_bit_width(self@.palette.len() as int),
    {
        bits_for(self.palette.len())
    }

    /// The serialized record of this region: palette and auxiliary records
    /// verbatim, cells repacked at the minimum sufficient bit width.
    pub fn to_raw(&self) -> (r: schema::Region)
        requires
            self@.wf(),
        ensures
            to_raw_rel(self@, r@),
    {
        let diff = self.corner2.minus(&self.corner1);
        let size = diff.plus(&diff.signum());
        let w = self.num_bits();
        let ghost plen = self@.palette.len() as int;
        let n = self.blocks.len();
        let mut ids: Vec<u64> = Vec::new();
        let mut i: usize = 0;
        while i < n
            invariant
                n == self@.blocks.len(),
                i <= n,
                ids@.len() == i,
                forall|k: int| 0 <= k < i ==> #[trigger] ids@[k] == self@.blocks[k] as u64,
                self@.wf(),
                is_min_bits(self@.palette.len() as int, w),
            decreases n - i,
        {
            let id = self.blocks[i];
            ids.push(id as u64);
            i += 1;
        }
        proof {
            assert(ids@ =~= ids_of(self@.blocks));
            assert(forall|k: int|
                0 <= k < ids@.len() ==> #[trigger] ids@[k] < (1u64 << w));
        }
        let words = pack(&ids, w);
        let longs = crate::schema::words_to_longs(&words);
        proof {
            assert forall|k: int| 0 <= k < longs@.len() implies #[trigger] longs@[k] as u64
                == words@[k] by {
                crate::schema::lemma_word_cast_round_trip(words@[k]);
            }
            assert(words_unsigned(longs@) =~= words@);
        }
        let block_states = fastnbt::LongArray::new(longs);
        schema::Region {
            position: self.corner1,
            size,
            block_state_palette: clone_palette(&self.palette),
            block_states,
            tile_entities: clone_tile_entities(&self.tile_entities),
            entities: clone_entities(&self.entities),
            pending_fluid_ticks: Vec::new(),
            pending_block_ticks: Vec::new(),
        }
    }

    /// Hydrate a region from a serialized record, under the given name.
    /// Fails, changing nothing, exactly when the record's palette is empty,
    /// its word count is wrong for its box, or a cell identifier does not
    /// index its palette.
    pub fn from_raw(raw: &schema::Region, name: String) -> (r: Result<Region, DecodeError>)
        requires
            i32::MIN < raw@.size.x,
            i32::MIN < raw@.size.y,
            i32::MIN < raw@.size.z,
            i32::MIN <= raw@.position.x + raw@.size.x - sign(raw@.size.x as int) <= i32::MAX,
            i32::MIN <= raw@.position.y + raw@.size.y - sign(raw@.size.y as int) <= i32::MAX,
            i32::MIN <= raw@.position.z + raw@.size.z - sign(raw@.size.z as int) <= i32::MAX,
            raw_volume(raw@) <= u32::MAX,
            raw@.block_state_palette.len() <= 0x1_0000_0000,
        ensures
            r is Ok <==> decode_ok(raw@),
            (r matches Ok(reg) ==> from_raw_rel(raw@, name@, reg@) && reg@.wf()),
            (r matches Err(e) ==> (e == DecodeError::EmptyPalette <==> raw@.block_state_palette.len() == 0)),
            (r matches Err(e) ==> (e == DecodeError::WordCountMismatch
                <==> raw@.block_state_palette.len() >= 1 && raw@.block_states.len() != word_count(
                raw_volume(raw@),
                min_bit_width(raw@.block_state_palette.len() as int),
            ))),
    {
        let plen = raw.block_state_palette.len();
        if plen == 0 {
            return Err(DecodeError::EmptyPalette);
        }
        let w = bits_for(plen);
        let corner1 = raw.position;
        let corner2 = raw.position.plus(&raw.size.minus(&raw.size.signum()));
        proof {
            assert(corner2 == raw_corner2(raw@));
        }
        let vol32 = corner1.volume_to(&corner2);
        let vol = vol32 as usize;
        let expected = words_needed(vol, w);
        let wlen = crate::schema::long_array_len(&raw.block_states);
        if wlen != expected {
            return Err(DecodeError::WordCountMismatch);
        }
        let longs = raw.block_state_words();
        let words = crate::schema::longs_to_words(&longs);
        proof {
            assert(words@ =~= words_unsigned(raw@.block_states));
        }
        let ids = unpack(&words, w, vol);
        proof {
            assert(ids@ =~= raw_ids(raw@));
        }
        let mut blocks: Vec<usize> = Vec::new();
        let mut i: usize = 0;
        while i < vol
            invariant
                vol == raw_volume(raw@),
                ids@.len() == vol,
                ids@ == raw_ids(raw@),
                i <= vol,
                plen == raw@.block_state_palette.len(),
                1 <= plen <= 0x1_0000_0000,
                raw@.block_states.len() == word_count(
                    raw_volume(raw@),
                    min_bit_width(raw@.block_state_palette.len() as int),
                ),
                blocks@.len() == i,
                forall|k: int| 0 <= k < i ==> #[trigger] blocks@[k] == ids@[k] as usize,
                forall|k: int| 0 <= k < i ==> #[trigger] ids@[k] < plen as u64,
            decreases vol - i,
        {
            let id = ids[i];
            if id >= plen as u64 {
                return Err(DecodeError::PaletteIndexOutOfRange);
            }
            proof {
                assert(usize::MAX >= u32::MAX);
                assert(id <= u32::MAX) by (bit_vector)
                    requires
                        id < plen as u64,
                        plen as u64 <= 0x1_0000_0000u64,
                ;
            }
            blocks.push(id as usize);
            i += 1;
        }
        let region = Region {
            name,
            corner1,
            corner2,
            tile_entities: clone_tile_entities(&raw.tile_entities),
            entities: clone_entities(&raw.entities),
            palette: clone_palette(&raw.block_state_palette),
            blocks,
        };
        proof {
            assert(region@.blocks =~= raw_ids(raw@).map_values(|x: u64| x as usize));
            assert(region@.volume() == raw_volume(raw@));
        }
        Ok(region)
    }

    /// A lazy, restartable walk of all cells in ascending linear order.
    pub fn blocks<'b>(&'b self) -> (r: Blocks<'b>)
        ensures
            r.spec_region() == self,
            r.spec_index() == 0,
    {
        Blocks::new(self)
    }

    /// Wrap this region as the single region of a container file value.
    pub fn as_litematic(self, description: String, author: String) -> (l: crate::litematic::Litematic)
        ensures
            l.name@ == self@.name,
            l.description@ == description@,
            l.author@ == author@,
            l.regions@.len() == 1,
            l.regions@[0] == self,
    {
        let mut l = crate::litematic::Litematic::new(self.name.clone(), description, author);
        l.regions.push(self);
        l
    }
}

/// A cursor over a region's cells in ascending linear-index order.
pub struct Blocks<'b> {
    region: &'b Region,
    index: usize,
}

impl<'b> Blocks<'b> {
    /// The region this cursor walks.
    pub closed spec fn spec_region(self) -> &'b Region {
        self.region
    }

    /// How many cells the cursor has yielded.
    pub closed spec fn spec_index(self) -> int {
        self.index as int
    }

    /// A cursor at the first cell of `region`.
    pub fn new(region: &'b Region) -> (r: Self)
        ensures
            r.spec_region() == region,
            r.spec_index() == 0,
    {
        Self { region, index: 0 }
    }

    /// The next `(position, value)` pair in linear order, or nothing after
    /// `volume` pairs.
    pub fn next(&mut self) -> (r: Option<(Vec3, &'b BlockState)>)
        requires
            old(self).spec_region()@.wf(),
        ensures
            final(self).spec_region() == old(self).spec_region(),
            match r {
                Some(pair) => {
                    &&& old(self).spec_index() < old(self).spec_region()@.volume()
                    &&& final(self).spec_index() == old(self).spec_index() + 1
                    &&& pair.0 == old(self).spec_region()@.index_pos(old(self).spec_index())
                    &&& pair.1@ == old(self).spec_region()@.palette[old(self).spec_region()@.blocks[old(
                        self,
                    ).spec_index()] as int]
                },
                None => {
                    &&& old(self).spec_index() >= old(self).spec_region()@.volume()
                    &&& final(self).spec_index() == old(self).spec_index()
                },
            },
    {
        let region: &'b Region = self.region;
        let vol = region.volume();
        if self.index >= vol as usize {
            return None;
        }
        let pos = region.index_to_pos(self.index);
        let id = region.blocks[self.index];
        let block: &'b BlockState = &region.palette[id];
        self.index += 1;
        Some((pos, block))
    }
}

/// Serializing a region and hydrating the record gives the region back.
pub proof fn lemma_region_round_trip(reg: RegionV, raw: schema::RegionV, reg2: RegionV)
    requires
        reg.wf(),
        to_raw_rel(reg, raw),
        from_raw_rel(raw, reg.name, reg2),
    ensures
        reg2 =~= reg,
{
    lemma_to_raw_decodable(reg, raw);
    let w = min_bit_width(reg.palette.len() as int);
    crate::codec::lemma_pack_unpack_round_trip(ids_of(reg.blocks), w, words_unsigned(raw.block_states));
    assert(raw_ids(raw) == ids_of(reg.blocks));
    assert forall|k: int| 0 <= k < reg.blocks.len() implies #[trigger] reg2.blocks[k]
        == reg.blocks[k] by {
        assert(raw_ids(raw)[k] == reg.blocks[k] as u64);
    }
    assert(reg2.blocks =~= reg.blocks);
}

/// A record serialized by `to_raw` always decodes, and its box matches the
/// region it came from.
pub proof fn lemma_to_raw_decodable(reg: RegionV, raw: schema::RegionV)
    requires
        reg.wf(),
        to_raw_rel(reg, raw),
    ensures
        decode_ok(raw),
        raw_corner2(raw) == reg.corner2,
        raw_volume(raw) == reg.volume(),
        i32::MIN < raw.size.x,
        i32::MIN < raw.size.y,
        i32::MIN < raw.size.z,
        i32::MIN <= raw.position.x + raw.size.x - sign(raw.size.x as int) <= i32::MAX,
        i32::MIN <= raw.position.y + raw.size.y - sign(raw.size.y as int) <= i32::MAX,
        i32::MIN <= raw.position.z + raw.size.z - sign(raw.size.z as int) <= i32::MAX,
        raw.block_state_palette.len() <= 0x1_0000_0000,
{
    let w = min_bit_width(reg.palette.len() as int);
    assert(raw_corner2(raw) == reg.corner2);
    crate::codec::lemma_pack_unpack_round_trip(ids_of(reg.blocks), w, words_unsigned(raw.block_states));
    assert(raw_ids(raw) == ids_of(reg.blocks));
    assert forall|k: int| 0 <= k < raw_volume(raw) implies (#[trigger] raw_ids(raw)[k] as int)
        < raw.block_state_palette.len() by {
        assert(raw_ids(raw)[k] == reg.blocks[k] as u64);
    }
}

/// Index of the first palette entry structurally equal to `block`, if any.
fn find_palette(palette: &Vec<BlockState>, block: &BlockState) -> (r: Option<usize>)
    ensures
        match r {
            Some(j) => is_first_match(palette_view(palette@), block@, j as int),
            None => !palette_contains(palette_view(palette@), block@),
        },
{
    let n = palette.len();
    let mut j: usize = 0;
    while j < n
        invariant
            n == palette@.len(),
            j <= n,
            forall|l: int| 0 <= l < j ==> palette_view(palette@)[l] != block@,
        decreases n - j,
    {
        if block.eq(&palette[j]) {
            return Some(j);
        }
        j += 1;
    }
    None
}

/// Why a serialized region record cannot be decoded.
#[derive(Clone, Copy, Debug, PartialEq, Eq, Structural)]
pub enum DecodeError {
    /// The record's palette is empty, so no cell could read a value.
    EmptyPalette,
    /// The packed word count does not match the box volume at the palette's
    /// bit width.
    WordCountMismatch,
    /// A packed cell identifier is not an index into the record's palette.
    PaletteIndexOutOfRange,
}

/// `w` is the smallest bit width of at least 2 whose range covers a palette
/// of `len` entries.
pub open spec fn is_min_bits(len: int, w: u64) -> bool {
    &&& 2 <= w <= 32
    &&& len <= (1u64 << w)
    &&& (w == 2 || len > (1u64 << ((w - 1) as u64)))
}

/// The smallest sufficient bit width for a palette of `len` entries.
pub open spec fn min_bit_width(len: int) -> u64 {
    choose|w: u64| is_min_bits(len, w)
}

/// Shifting one left grows with the shift amount.
proof fn lemma_shl_le(a: u64, b: u64)
    by (bit_vector)
    requires
        a <= b,
        b < 64,
    ensures
        (1u64 << a) <= (1u64 << b),
{
}

/// The minimum sufficient bit width is unique, so it is what
/// `min_bit_width` denotes.
pub proof fn lemma_min_bits_determines(len: int, w: u64)
    requires
        is_min_bits(len, w),
    ensures
        min_bit_width(len) == w,
{
    assert(exists|v: u64| is_min_bits(len, v));
    let w2 = min_bit_width(len);
    if w2 < w {
        lemma_shl_le(w2, (w - 1) as u64);
        assert(false);
    }
    if w2 > w {
        lemma_shl_le(w, (w2 - 1) as u64);
        assert(false);
    }
}

/// The smallest sufficient bit width, at least 2, for a palette of `len`
/// entries.
pub fn bits_for(len: usize) -> (r: u64)
    requires
        1 <= len <= 0x1_0000_0000,
    ensures
        is_min_bits(len as int, r),
        r == min_bit_width(len as int),
{
    let target = len as u64;
    let mut nb: u64 = 2;
    while (1u64 << nb) < target
        invariant
            2 <= nb <= 32,
            nb > 2 ==> (1u64 << ((nb - 1) as u64)) < target,
            target == len,
            1 <= len <= 0x1_0000_0000,
        decreases 32 - nb,
    {
        proof {
            if nb == 32 {
                assert((1u64 << 32u64) == 0x1_0000_0000u64) by (bit_vector);
                assert(false);
            }
        }
        nb += 1;
    }
    proof {
        lemma_min_bits_determines(len as int, nb);
    }
    nb
}

/// The cell identifiers as unsigned 64-bit values.
pub open spec fn ids_of(blocks: Seq<usize>) -> Seq<u64> {
    blocks.map_values(|b: usize| b as u64)
}

/// Packed words reinterpreted as unsigned 64-bit values.
pub open spec fn words_unsigned(words: Seq<i64>) -> Seq<u64> {
    words.map_values(|x: i64| x as u64)
}

/// How `to_raw` relates a region to its serialized record: one corner and a
/// signed size describe the box, the palette and auxiliary records travel
/// verbatim, the cells are packed at the minimum sufficient bit width, and
/// the pass-through tick lists are empty.
pub open spec fn to_raw_rel(reg: RegionV, raw: schema::RegionV) -> bool {
    &&& raw.position == reg.corner1
    &&& raw.size.x as int == reg.corner2.x - reg.corner1.x + sign(reg.corner2.x - reg.corner1.x)
    &&& raw.size.y as int == reg.corner2.y - reg.corner1.y + sign(reg.corner2.y - reg.corner1.y)
    &&& raw.size.z as int == reg.corner2.z - reg.corner1.z + sign(reg.corner2.z - reg.corner1.z)
    &&& raw.block_state_palette == reg.palette
    &&& raw.tile_entities == reg.tile_entities
    &&& raw.entities == reg.entities
    &&& raw.pending_fluid_ticks.len() == 0
    &&& raw.pending_block_ticks.len() == 0
    &&& packed_ok(
        ids_of(reg.blocks),
        min_bit_width(reg.palette.len() as int),
        words_unsigned(raw.block_states),
    )
    &&& is_min_bits(reg.palette.len() as int, min_bit_width(reg.palette.len() as int))
}

/// The corner opposite `position` that a record's signed size describes: a
/// negative size component extends the box toward decreasing coordinates.
pub open spec fn raw_corner2(raw: schema::RegionV) -> Vec3 {
    Vec3 {
        x: (raw.position.x + raw.size.x - sign(raw.size.x as int)) as i32,
        y: (raw.position.y + raw.size.y - sign(raw.size.y as int)) as i32,
        z: (raw.position.z + raw.size.z - sign(raw.size.z as int)) as i32,
    }
}

/// Number of cells the record's box holds.
pub open spec fn raw_volume(raw: schema::RegionV) -> int {
    spec_box_volume(raw.position, raw_corner2(raw))
}

/// The identifiers that unpacking the record's words yields.
pub open spec fn raw_ids(raw: schema::RegionV) -> Seq<u64> {
    unpack_spec(
        words_unsigned(raw.block_states),
        min_bit_width(raw.block_state_palette.len() as int),
        raw_volume(raw),
    )
}

/// The record decodes: the palette is non-empty, the word count matches the
/// box volume at the palette's bit width, and every unpacked identifier
/// indexes the palette.
pub open spec fn decode_ok(raw: schema::RegionV) -> bool {
    &&& raw.block_state_palette.len() >= 1
    &&& raw.block_states.len() == word_count(
        raw_volume(raw),
        min_bit_width(raw.block_state_palette.len() as int),
    )
    &&& forall|k: int|
        0 <= k < raw_volume(raw) ==> (#[trigger] raw_ids(raw)[k] as int)
            < raw.block_state_palette.len()
}

/// How `from_raw` relates a record to the region it hydrates: the corners
/// come from position and size, the palette and auxiliary records travel
/// verbatim, and the cells are the unpacked identifiers.
pub open spec fn from_raw_rel(raw: schema::RegionV, nm: Seq<char>, reg: RegionV) -> bool {
    &&& reg.name == nm
    &&& reg.corner1 == raw.position
    &&& reg.corner2 == raw_corner2(raw)
    &&& reg.palette == raw.block_state_palette
    &&& reg.tile_entities == raw.tile_entities
    &&& reg.entities == raw.entities
    &&& reg.blocks == raw_ids(raw).map_values(|x: u64| x as usize)
}

/// Index of the first tile entity record at `pos`, if any.
fn find_tile_entity(v: &Vec<TileEntity>, pos: UVec3) -> (r: Option<usize>)
    ensures
        match r {
            Some(j) => te_is_first_match(tile_entities_view(v@), pos, j as int),
            None => !te_contains(tile_entities_view(v@), pos),
        },
{
    let n = v.len();
    let mut j: usize = 0;
    while j < n
        invariant
            n == v@.len(),
            j <= n,
            forall|l: int| 0 <= l < j ==> tile_entities_view(v@)[l].pos != pos,
        decreases n - j,
    {
        if v[j].pos == pos {
            return Some(j);
        }
        j += 1;
    }
    None
}

} // verus!
