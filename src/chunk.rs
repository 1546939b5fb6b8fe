use vstd::prelude::*;

use crate::block::BlockId;

verus! {

/// Number of block layers in a chunk column.
pub const WORLD_HEIGHT: usize = 384;

/// Blocks in one horizontal layer of a chunk.
pub const CHUNK_AREA: usize = 16 * 16;

/// Blocks in one 16x16x16 subchunk.
pub const SUBCHUNK_VOLUME: usize = CHUNK_AREA * 16;

/// Blocks in a whole chunk column.
pub const CHUNK_VOLUME: usize = CHUNK_AREA * WORLD_HEIGHT;

/// Number of 64-bit words in each heightmap of an empty chunk.
pub const HEIGHTMAP_WORDS: usize = 37;

/// Position of a chunk in the world, in chunk units.
#[derive(Clone, Copy, Debug, PartialEq, Eq, Structural)]
pub struct ChunkPosition {
    pub x: i32,
    pub z: i32,
}

impl ChunkPosition {
    pub fn new(x: i32, z: i32) -> (r: ChunkPosition)
        ensures
            r.x == x,
            r.z == z,
    {
        ChunkPosition { x, z }
    }
}

/// A block coordinate inside a chunk column: `x` and `z` within the column,
/// `y` counted from the bottom of the world.
#[derive(Clone, Copy, Debug, PartialEq, Eq, Structural)]
pub struct ChunkRelativeBlockCoordinates {
    pub x: u8,
    pub y: u16,
    pub z: u8,
}

impl ChunkRelativeBlockCoordinates {
    pub open spec fn valid(&self) -> bool {
        self.x < 16 && self.z < 16 && self.y < WORLD_HEIGHT
    }

    /// Linear offset of the coordinate in a chunk's block array (y, then z, then x).
    pub open spec fn offset(&self) -> int {
        self.y * 256 + self.z * 16 + self.x
    }

    /// Builds a coordinate, or `None` when it lies outside the chunk column.
    pub fn new(x: u8, y: u16, z: u8) -> (r: Option<ChunkRelativeBlockCoordinates>)
        ensures
            r is Some <==> (x < 16 && z < 16 && y < WORLD_HEIGHT),
            r is Some ==> r->Some_0 == (ChunkRelativeBlockCoordinates { x, y, z }),
    {
        if x < 16 && z < 16 && (y as usize) < WORLD_HEIGHT {
            Some(ChunkRelativeBlockCoordinates { x, y, z })
        } else {
            None
        }
    }
}

/// Distinct valid coordinates have distinct offsets, all inside the block array.
pub proof fn lemma_offset_injective(a: ChunkRelativeBlockCoordinates, b: ChunkRelativeBlockCoordinates)
    requires
        a.valid(),
        b.valid(),
    ensures
        0 <= a.offset() < CHUNK_VOLUME,
        a.offset() == b.offset() <==> a == b,
{
    assert(0 <= a.offset() < CHUNK_VOLUME) by (nonlinear_arith)
        requires
            a.x < 16,
            a.z < 16,
            a.y < 384,
    ;
    if a.offset() == b.offset() {
        assert(a.x == b.x && a.z == b.z && a.y == b.y) by (nonlinear_arith)
            requires
                a.x < 16,
                a.z < 16,
                b.x < 16,
                b.z < 16,
                a.y * 256 + a.z * 16 + a.x == b.y * 256 + b.z * 16 + b.x,
        ;
    }
}

/// The two packed height arrays of a chunk, carried through unopened.
#[derive(Clone, Debug)]
pub struct ChunkHeightmaps {
    pub motion_blocking: Vec<i64>,
    pub world_surface: Vec<i64>,
}

impl Default for ChunkHeightmaps {
    /// The heightmaps of a chunk that holds nothing.
    fn default() -> (r: ChunkHeightmaps)
        ensures
            r.motion_blocking@ == Seq::new(HEIGHTMAP_WORDS as nat, |i: int| 0i64),
            r.world_surface@ == Seq::new(HEIGHTMAP_WORDS as nat, |i: int| 0i64),
    {
        ChunkHeightmaps {
            motion_blocking: vec![0i64; HEIGHTMAP_WORDS],
            world_surface: vec![0i64; HEIGHTMAP_WORDS],
        }
    }
}

/// The blocks of a chunk column, ordered y, z, x (y most significant),
/// together with its heightmaps.
pub struct ChunkBlocks {
    blocks: Vec<BlockId>,
    heightmap: ChunkHeightmaps,
}

/// A block array of `CHUNK_VOLUME` blocks, all air.
pub open spec fn all_air() -> Seq<BlockId> {
    Seq::new(CHUNK_VOLUME as nat, |i: int| BlockId::air())
}

impl View for ChunkBlocks {
    type V = Seq<BlockId>;

    closed spec fn view(&self) -> Seq<BlockId> {
        self.blocks@
    }
}

impl ChunkBlocks {
    /// The block array holds exactly `CHUNK_VOLUME` blocks.
    pub open spec fn wf(&self) -> bool {
        self@.len() == CHUNK_VOLUME
    }

    /// The heightmaps of the chunk.
    pub closed spec fn heightmaps(&self) -> ChunkHeightmaps {
        self.heightmap
    }

    /// The heightmaps of the chunk.
    pub fn heightmap(&self) -> (r: &ChunkHeightmaps)
        ensures
            *r == self.heightmaps(),
    {
        &self.heightmap
    }

    /// The block array, in order y, z, x.
    pub fn blocks(&self) -> (r: &Vec<BlockId>)
        requires
            self.wf(),
        ensures
            r@ == self@,
            r@.len() == CHUNK_VOLUME,
    {
        &self.blocks
    }

    /// An all-air chunk that keeps the given heightmaps.
    pub fn empty_with_heightmap(heightmap: ChunkHeightmaps) -> (r: ChunkBlocks)
        ensures
            r.wf(),
            r@ == all_air(),
            r.heightmaps() == heightmap,
    {
        let blocks = vec![BlockId { data: 0 }; CHUNK_VOLUME];
        proof {
            assert(blocks@ =~= all_air());
        }
        ChunkBlocks { blocks, heightmap }
    }

    /// Builds a chunk from a block array of exactly `CHUNK_VOLUME` blocks.
    pub fn from_blocks(blocks: Vec<BlockId>, heightmap: ChunkHeightmaps) -> (r: Option<ChunkBlocks>)
        ensures
            r is Some <==> blocks@.len() == CHUNK_VOLUME,
            r is Some ==> r->Some_0.wf() && r->Some_0@ == blocks@ && r->Some_0.heightmaps() == heightmap,
    {
        if blocks.len() == CHUNK_VOLUME {
            Some(ChunkBlocks { blocks, heightmap })
        } else {
            None
        }
    }

    /// Linear offset of a coordinate in the block array.
    pub fn convert_index(position: ChunkRelativeBlockCoordinates) -> (r: usize)
        requires
            position.valid(),
        ensures
            r == position.offset(),
            r < CHUNK_VOLUME,
    {
        position.y as usize * CHUNK_AREA + position.z as usize * 16 + position.x as usize
    }

    /// The block at a coordinate.
    pub fn get_block(&self, position: ChunkRelativeBlockCoordinates) -> (r: BlockId)
        requires
            self.wf(),
            position.valid(),
        ensures
            r == self@[position.offset()],
    {
        self.blocks[Self::convert_index(position)]
    }

    /// Block at a linear offset of the block array.
    pub fn block_at(&self, index: usize) -> (r: BlockId)
        requires
            self.wf(),
            index < CHUNK_VOLUME,
        ensures
            r == self@[index as int],
    {
        self.blocks[index]
    }

    /// Replaces the block at a coordinate and returns the old block; the
    /// heightmaps are left as they are.
    pub fn set_block_no_heightmap_update(
        &mut self,
        position: ChunkRelativeBlockCoordinates,
        block: BlockId,
    ) -> (r: BlockId)
        requires
            old(self).wf(),
            position.valid(),
        ensures
            final(self).wf(),
            r == old(self)@[position.offset()],
            final(self)@ == old(self)@.update(position.offset(), block),
            final(self).heightmaps() == old(self).heightmaps(),
    {
        self.set_index(Self::convert_index(position), block)
    }

    /// Replaces the block at a coordinate and returns the old block.
    /// The heightmaps are not recomputed.
    pub fn set_block(&mut self, position: ChunkRelativeBlockCoordinates, block: BlockId) -> (r:
        BlockId)
        requires
            old(self).wf(),
            position.valid(),
        ensures
            final(self).wf(),
            r == old(self)@[position.offset()],
            final(self)@ == old(self)@.update(position.offset(), block),
            final(self).heightmaps() == old(self).heightmaps(),
    {
        self.set_block_no_heightmap_update(position, block)
    }

    /// Replaces the block at a linear offset and returns the old block.
    pub fn set_index(&mut self, index: usize, block: BlockId) -> (r: BlockId)
        requires
            old(self).wf(),
            index < CHUNK_VOLUME,
        ensures
            final(self).wf(),
            r == old(self)@[index as int],
            final(self)@ == old(self)@.update(index as int, block),
            final(self).heightmaps() == old(self).heightmaps(),
    {
        let prev = self.blocks[index];
        self.blocks.set(index, block);
        prev
    }

    /// The subchunks of the column, bottom first, each a borrowed window of
    /// `SUBCHUNK_VOLUME` consecutive blocks.
    pub fn iter_subchunks(&self) -> (r: Vec<&[BlockId]>)
        requires
            self.wf(),
        ensures
            r@.len() == CHUNK_VOLUME / SUBCHUNK_VOLUME,
            forall|s: int|
                0 <= s < r@.len() ==> #[trigger] r@[s]@ == self@.subrange(
                    s * SUBCHUNK_VOLUME,
                    (s + 1) * SUBCHUNK_VOLUME,
                ),
    {
        assert(CHUNK_VOLUME == 98304 && SUBCHUNK_VOLUME == 4096);
        assert(98304int / 4096int == 24);
        let all = self.blocks.as_slice();
        let mut out: Vec<&[BlockId]> = Vec::new();
        let mut s: usize = 0;
        while s < CHUNK_VOLUME / SUBCHUNK_VOLUME
            invariant
                s <= CHUNK_VOLUME / SUBCHUNK_VOLUME,
                CHUNK_VOLUME / SUBCHUNK_VOLUME == 24,
                all@ == self@,
                all@.len() == CHUNK_VOLUME,
                out@.len() == s,
                forall|t: int|
                    0 <= t < s ==> #[trigger] out@[t]@ == self@.subrange(
                        t * SUBCHUNK_VOLUME,
                        (t + 1) * SUBCHUNK_VOLUME,
                    ),
            decreases CHUNK_VOLUME / SUBCHUNK_VOLUME - s,
        {
            let base: usize = s * SUBCHUNK_VOLUME;
            proof {
                assert(base + SUBCHUNK_VOLUME <= CHUNK_VOLUME) by (nonlinear_arith)
                    requires
                        base == s * 4096,
                        s < 24,
                ;
            }
            out.push(vstd::slice::slice_subrange(all, base, base + SUBCHUNK_VOLUME));
            s += 1;
            proof {
                assert forall|t: int| 0 <= t < s implies #[trigger] out@[t]@ == self@.subrange(
                    t * SUBCHUNK_VOLUME,
                    (t + 1) * SUBCHUNK_VOLUME,
                ) by {
                    if t == s - 1 {
                        assert((t + 1) * SUBCHUNK_VOLUME == base + SUBCHUNK_VOLUME);
                    }
                }
            }
        }
        out
    }
}

impl Default for ChunkBlocks {
    /// An all-air chunk with the heightmaps of an empty chunk.
    fn default() -> (r: ChunkBlocks)
        ensures
            r.wf(),
            r@ == all_air(),
            r.heightmaps().motion_blocking@ == Seq::new(HEIGHTMAP_WORDS as nat, |i: int| 0i64),
            r.heightmaps().world_surface@ == Seq::new(HEIGHTMAP_WORDS as nat, |i: int| 0i64),
    {
        ChunkBlocks::empty_with_heightmap(ChunkHeightmaps::default())
    }
}

/// A decoded chunk: its position and its blocks.
pub struct ChunkData {
    pub blocks: ChunkBlocks,
    pub position: ChunkPosition,
}

} // verus!
