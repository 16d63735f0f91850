//! The serialized form of a region, as exchanged with the container layer.
//!
//! The packed cell identifiers travel as an NBT long array, so the record
//! holds them in a `fastnbt::LongArray`; everything else is plain data.

use crate::block::{
    palette_view, pending_ticks_view, tile_entities_view, entities_view, BlockState, BlockStateV,
    Entity, EntityV, PendingTick, PendingTickV, TileEntity, TileEntityV,
};
use crate::util::Vec3;
use vstd::prelude::*;

verus! {

/// Declares fastnbt's owned NBT long-array type, so that a record can hold
/// one; Verus sees nothing inside a value of it.
#[verifier::external_type_specification]
#[verifier::external_body]
pub struct ExLongArray(fastnbt::LongArray);

/// The 64-bit words that a `fastnbt::LongArray` holds, in order.
pub uninterp spec fn long_array_data(a: fastnbt::LongArray) -> Seq<i64>;

/// Relies on fastnbt::LongArray::new: wraps the given words unchanged.
pub assume_specification[ fastnbt::LongArray::new ](data: Vec<i64>) -> (r: fastnbt::LongArray)
    ensures
        long_array_data(r) == data@,
;

/// Relies on fastnbt::LongArray's deref to a slice: its length is the word count.
#[verifier::external_body]
pub(crate) fn long_array_len(a: &fastnbt::LongArray) -> (r: usize)
    ensures
        r == long_array_data(*a).len(),
{
    a.len()
}

/// Relies on fastnbt::LongArray's deref to a slice: indexing reads the word.
#[verifier::external_body]
pub(crate) fn long_array_get(a: &fastnbt::LongArray, i: usize) -> (r: i64)
    requires
        i < long_array_data(*a).len(),
    ensures
        r == long_array_data(*a)[i as int],
{
    a[i]
}

/// A serialized region record.
pub struct Region {
    pub position: Vec3,
    pub size: Vec3,
    pub block_state_palette: Vec<BlockState>,
    pub block_states: fastnbt::LongArray,
    pub tile_entities: Vec<TileEntity>,
    pub entities: Vec<Entity>,
    pub pending_fluid_ticks: Vec<PendingTick>,
    pub pending_block_ticks: Vec<PendingTick>,
}

/// Mathematical value of a serialized region record.
#[verifier::ext_equal]
pub ghost struct RegionV {
    pub position: Vec3,
    pub size: Vec3,
    pub block_state_palette: Seq<BlockStateV>,
    pub block_states: Seq<i64>,
    pub tile_entities: Seq<TileEntityV>,
    pub entities: Seq<EntityV>,
    pub pending_fluid_ticks: Seq<PendingTickV>,
    pub pending_block_ticks: Seq<PendingTickV>,
}

impl View for Region {
    type V = RegionV;

    open spec fn view(&self) -> RegionV {
        RegionV {
            position: self.position,
            size: self.size,
            block_state_palette: palette_view(self.block_state_palette@),
            block_states: long_array_data(self.block_states),
            tile_entities: tile_entities_view(self.tile_entities@),
            entities: entities_view(self.entities@),
            pending_fluid_ticks: pending_ticks_view(self.pending_fluid_ticks@),
            pending_block_ticks: pending_ticks_view(self.pending_block_ticks@),
        }
    }
}

impl Region {
    /// The packed words of this record, as a plain vector.
    pub fn block_state_words(&self) -> (r: Vec<i64>)
        ensures
            r@ == self@.block_states,
    {
        let n = long_array_len(&self.block_states);
        let mut out: Vec<i64> = Vec::new();
        let mut i: usize = 0;
        while i < n
            invariant
                n == long_array_data(self.block_states).len(),
                i <= n,
                out@ == long_array_data(self.block_states).take(i as int),
            decreases n - i,
        {
            let word = long_array_get(&self.block_states, i);
            out.push(word);
            proof {
                assert(out@ =~= long_array_data(self.block_states).take(i + 1));
            }
            i += 1;
        }
        proof {
            assert(out@ =~= long_array_data(self.block_states));
        }
        out
    }
}

/// Casting a word to signed and back is the identity.
pub proof fn lemma_word_cast_round_trip(x: u64)
    by (bit_vector)
    ensures
        ((x as i64) as u64) == x,
{
}

/// The words of `v` reinterpreted as signed 64-bit values.
pub(crate) fn words_to_longs(v: &Vec<u64>) -> (r: Vec<i64>)
    ensures
        r@.len() == v@.len(),
        forall|k: int| 0 <= k < v@.len() ==> #[trigger] r@[k] == v@[k] as i64,
{
    let mut out: Vec<i64> = Vec::new();
    let mut i: usize = 0;
    while i < v.len()
        invariant
            i <= v@.len(),
            out@.len() == i,
            forall|k: int| 0 <= k < i ==> #[trigger] out@[k] == v@[k] as i64,
        decreases v@.len() - i,
    {
        out.push(#[verifier::truncate] (v[i] as i64));
        i += 1;
    }
    out
}

/// The words of `v` reinterpreted as unsigned 64-bit values.
pub(crate) fn longs_to_words(v: &Vec<i64>) -> (r: Vec<u64>)
    ensures
        r@.len() == v@.len(),
        forall|k: int| 0 <= k < v@.len() ==> #[trigger] r@[k] == v@[k] as u64,
{
    let mut out: Vec<u64> = Vec::new();
    let mut i: usize = 0;
    while i < v.len()
        invariant
            i <= v@.len(),
            out@.len() == i,
            forall|k: int| 0 <= k < i ==> #[trigger] out@[k] == v@[k] as u64,
        decreases v@.len() - i,
    {
        out.push(#[verifier::truncate] (v[i] as u64));
        i += 1;
    }
    out
}

} // verus!
