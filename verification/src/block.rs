//! Cell values and opaque auxiliary records.
//!
//! A `BlockState` is the labeled content of one grid cell: a name plus an
//! optional key/value property list. Tile entities, entities and pending
//! ticks are auxiliary records the storage core keys or sequences but never
//! interprets.

use crate::util::UVec3;
use vstd::prelude::*;

verus! {

/// One key/value pair of a property list or of an opaque record.
#[derive(Debug)]
pub struct Property {
    pub key: String,
    pub value: String,
}

/// Mathematical value of a `Property`: both strings as character sequences.
#[verifier::ext_equal]
pub ghost struct PropertyV {
    pub key: Seq<char>,
    pub value: Seq<char>,
}

impl View for Property {
    type V = PropertyV;

    open spec fn view(&self) -> PropertyV {
        PropertyV { key: self.key@, value: self.value@ }
    }
}

/// Mathematical value of a property list.
pub open spec fn props_view(v: Seq<Property>) -> Seq<PropertyV> {
    v.map_values(|p: Property| p@)
}

impl PartialEq for Property {
    fn eq(&self, other: &Self) -> (r: bool) {
        self.key == other.key && self.value == other.value
    }
}

impl vstd::std_specs::cmp::PartialEqSpecImpl for Property {
    open spec fn obeys_eq_spec() -> bool {
        true
    }

    open spec fn eq_spec(&self, other: &Property) -> bool {
        self@ == other@
    }
}

impl Eq for Property {

}

impl Clone for Property {
    fn clone(&self) -> (r: Self)
        ensures
            r == *self,
    {
        Property { key: self.key.clone(), value: self.value.clone() }
    }
}

/// A labeled cell value: a name and an optional property mapping.
#[derive(Debug)]
pub struct BlockState {
    pub name: String,
    pub properties: Option<Vec<Property>>,
}

/// Mathematical value of a `BlockState`.
#[verifier::ext_equal]
pub ghost struct BlockStateV {
    pub name: Seq<char>,
    pub properties: Option<Seq<PropertyV>>,
}

impl View for BlockState {
    type V = BlockStateV;

    open spec fn view(&self) -> BlockStateV {
        BlockStateV {
            name: self.name@,
            properties: match self.properties {
                Some(v) => Some(props_view(v@)),
                None => None,
            },
        }
    }
}

/// The schema's "empty" cell value, bound to palette id 0 of a fresh region.
pub open spec fn air_view() -> BlockStateV {
    BlockStateV { name: "minecraft:air"@, properties: None }
}

impl BlockState {
    /// The schema's "empty" cell value.
    pub fn air() -> (r: BlockState)
        ensures
            r@ == air_view(),
    {
        BlockState { name: "minecraft:air".to_owned(), properties: None }
    }
}

/// Structural equality of two property lists.
fn props_eq(a: &Vec<Property>, b: &Vec<Property>) -> (r: bool)
    ensures
        r == (props_view(a@) == props_view(b@)),
{
    if a.len() != b.len() {
        assert(props_view(a@).len() != props_view(b@).len());
        return false;
    }
    let n = a.len();
    let mut i: usize = 0;
    while i < n
        invariant
            n == a.len() == b.len(),
            i <= n,
            forall|j: int| 0 <= j < i ==> props_view(a@)[j] == props_view(b@)[j],
        decreases n - i,
    {
        if !(a[i] == b[i]) {
            assert(props_view(a@)[i as int] != props_view(b@)[i as int]);
            return false;
        }
        i += 1;
    }
    proof {
        assert(props_view(a@) =~= props_view(b@));
    }
    true
}

impl PartialEq for BlockState {
    fn eq(&self, other: &Self) -> (r: bool) {
        if !(self.name == other.name) {
            return false;
        }
        match (&self.properties, &other.properties) {
            (Some(a), Some(b)) => props_eq(a, b),
            (None, None) => true,
            _ => false,
        }
    }
}

impl vstd::std_specs::cmp::PartialEqSpecImpl for BlockState {
    open spec fn obeys_eq_spec() -> bool {
        true
    }

    open spec fn eq_spec(&self, other: &BlockState) -> bool {
        self@ == other@
    }
}

impl Eq for BlockState {

}

impl Clone for BlockState {
    fn clone(&self) -> (r: Self)
        ensures
            r@ == self@,
    {
        BlockState {
            name: self.name.clone(),
            properties: match &self.properties {
                Some(v) => {
                    let c = v.clone();
                    proof {
                        assert(props_view(c@) =~= props_view(v@));
                    }
                    Some(c)
                },
                None => None,
            },
        }
    }
}

/// An opaque auxiliary record keyed by an unsigned position.
#[derive(Debug, PartialEq)]
pub struct TileEntity {
    pub pos: UVec3,
    pub data: Vec<Property>,
}

/// Mathematical value of a `TileEntity`.
#[verifier::ext_equal]
pub ghost struct TileEntityV {
    pub pos: UVec3,
    pub data: Seq<PropertyV>,
}

impl View for TileEntity {
    type V = TileEntityV;

    open spec fn view(&self) -> TileEntityV {
        TileEntityV { pos: self.pos, data: props_view(self.data@) }
    }
}

impl Clone for TileEntity {
    fn clone(&self) -> (r: Self)
        ensures
            r@ == self@,
    {
        let data = self.data.clone();
        proof {
            assert(props_view(data@) =~= props_view(self.data@));
        }
        TileEntity { pos: self.pos, data }
    }
}

/// A free-floating opaque auxiliary record, with no position key.
#[derive(Debug, PartialEq)]
pub struct Entity {
    pub data: Vec<Property>,
}

/// Mathematical value of an `Entity`.
#[verifier::ext_equal]
pub ghost struct EntityV {
    pub data: Seq<PropertyV>,
}

impl View for Entity {
    type V = EntityV;

    open spec fn view(&self) -> EntityV {
        EntityV { data: props_view(self.data@) }
    }
}

impl Clone for Entity {
    fn clone(&self) -> (r: Self)
        ensures
            r@ == self@,
    {
        let data = self.data.clone();
        proof {
            assert(props_view(data@) =~= props_view(self.data@));
        }
        Entity { data }
    }
}

/// An opaque pass-through scheduling record of the serialized form.
#[derive(Debug, PartialEq)]
pub struct PendingTick {
    pub data: Vec<Property>,
}

/// Mathematical value of a `PendingTick`.
#[verifier::ext_equal]
pub ghost struct PendingTickV {
    pub data: Seq<PropertyV>,
}

impl View for PendingTick {
    type V = PendingTickV;

    open spec fn view(&self) -> PendingTickV {
        PendingTickV { data: props_view(self.data@) }
    }
}

impl Clone for PendingTick {
    fn clone(&self) -> (r: Self)
        ensures
            r@ == self@,
    {
        let data = self.data.clone();
        proof {
            assert(props_view(data@) =~= props_view(self.data@));
        }
        PendingTick { data }
    }
}

/// Mathematical values of a sequence of tile entities.
pub open spec fn tile_entities_view(v: Seq<TileEntity>) -> Seq<TileEntityV> {
    v.map_values(|t: TileEntity| t@)
}

/// Mathematical values of a sequence of entities.
pub open spec fn entities_view(v: Seq<Entity>) -> Seq<EntityV> {
    v.map_values(|e: Entity| e@)
}

/// Mathematical values of a palette.
pub open spec fn palette_view(v: Seq<BlockState>) -> Seq<BlockStateV> {
    v.map_values(|b: BlockState| b@)
}

/// Mathematical values of a sequence of pending ticks.
pub open spec fn pending_ticks_view(v: Seq<PendingTick>) -> Seq<PendingTickV> {
    v.map_values(|t: PendingTick| t@)
}

/// A copy of a palette with the same mathematical value.
pub(crate) fn clone_palette(v: &Vec<BlockState>) -> (r: Vec<BlockState>)
    ensures
        palette_view(r@) == palette_view(v@),
{
    let mut out: Vec<BlockState> = Vec::new();
    let mut i: usize = 0;
    while i < v.len()
        invariant
            i <= v@.len(),
            out@.len() == i,
            forall|l: int| 0 <= l < i ==> #[trigger] out@[l]@ == v@[l]@,
        decreases v@.len() - i,
    {
        out.push(v[i].clone());
        i += 1;
    }
    proof {
        assert(palette_view(out@) =~= palette_view(v@));
    }
    out
}

/// A copy of a tile entity list with the same mathematical value.
pub(crate) fn clone_tile_entities(v: &Vec<TileEntity>) -> (r: Vec<TileEntity>)
    ensures
        tile_entities_view(r@) == tile_entities_view(v@),
{
    let mut out: Vec<TileEntity> = Vec::new();
    let mut i: usize = 0;
    while i < v.len()
        invariant
            i <= v@.len(),
            out@.len() == i,
            forall|l: int| 0 <= l < i ==> #[trigger] out@[l]@ == v@[l]@,
        decreases v@.len() - i,
    {
        out.push(v[i].clone());
        i += 1;
    }
    proof {
        assert(tile_entities_view(out@) =~= tile_entities_view(v@));
    }
    out
}

/// A copy of an entity list with the same mathematical value.
pub(crate) fn clone_entities(v: &Vec<Entity>) -> (r: Vec<Entity>)
    ensures
        entities_view(r@) == entities_view(v@),
{
    let mut out: Vec<Entity> = Vec::new();
    let mut i: usize = 0;
    while i < v.len()
        invariant
            i <= v@.len(),
            out@.len() == i,
            forall|l: int| 0 <= l < i ==> #[trigger] out@[l]@ == v@[l]@,
        decreases v@.len() - i,
    {
        out.push(v[i].clone());
        i += 1;
    }
    proof {
        assert(entities_view(out@) =~= entities_view(v@));
    }
    out
}

} // verus!
