//! Chunks and their sections: the columns of the destination world.
use std::collections::HashMap;
use vstd::prelude::*;

use crate::world_gen::block_state::{nibble, stored, Block, BlockState, WORDS};

verus! {

/// The biomes of a section.
#[derive(Debug)]
pub struct Biomes {
    pub palette: Vec<String>,
}

impl Biomes {
    /// Whether these are the biomes of every generated section: plains alone.
    pub open spec fn is_plains(&self) -> bool {
        &&& self.palette@.len() == 1
        &&& self.palette@[0]@ == "minecraft:plains"@
    }
}

impl Default for Biomes {
    fn default() -> (biomes: Self)
        ensures
            biomes.is_plains(),
    {
        let mut palette: Vec<String> = Vec::new();
        palette.push("minecraft:plains".to_string());
        Biomes { palette }
    }
}

/// A slab of sixteen layers of one chunk.
#[derive(Debug)]
pub struct Section {
    /// The vertical index of the slab: the height of its lowest layer,
    /// divided by sixteen.
    pub y: i8,
    pub block_states: BlockState,
    pub biomes: Biomes,
}

/// One column of the destination world, sixteen blocks wide and deep.
#[derive(Debug)]
pub struct Chunk {
    pub data_version: i32,
    pub x_pos: i32,
    pub z_pos: i32,
    pub y_pos: i32,
    pub status: String,
    pub sections: Vec<Section>,
}

/// The height of the lowest layer of the world.
pub const MIN_Y: i32 = -592;

/// The vertical index of the lowest section.
pub const MIN_SECTION: i8 = -37;

/// The largest number of sections of a chunk.
pub const MAX_SECTIONS: usize = 128;

/// The height above the highest layer that a chunk can hold.
pub const MAX_Y: i32 = 1456;

/// The format version that every chunk is marked with.
pub const DATA_VERSION: i32 = 4189;

/// The palette index of air.
pub const AIR: i8 = 0;

/// The palette index of the floor of the world.
pub const BEDROCK: i8 = 1;

/// The palette index of the terrain.
pub const STONE: i8 = 2;

/// The palette index of water.
pub const WATER: i8 = 3;

/// Whether `block` is the block type `name` without properties.
pub open spec fn is_plain_block(block: Block, name: Seq<char>) -> bool {
    &&& block.name@ == name
    &&& block.properties@ == Map::<String, String>::empty()
}

/// Whether `palette` is the palette of every generated section: air, the
/// floor, stone and water, in that order.
pub open spec fn is_default_palette(palette: Seq<Block>) -> bool {
    &&& palette.len() == 4
    &&& is_plain_block(palette[0], "minecraft:air"@)
    &&& is_plain_block(palette[1], "minecraft:bedrock"@)
    &&& is_plain_block(palette[2], "minecraft:stone"@)
    &&& is_plain_block(palette[3], "minecraft:water"@)
}

impl Section {
    /// Whether this is a section as the voxelizer makes them.
    pub open spec fn is_generated(&self) -> bool {
        &&& self.block_states.wf()
        &&& is_default_palette(self.block_states.palette@)
        &&& self.biomes.is_plains()
    }

    /// A section of nothing but air at the vertical index `y`.
    fn empty(y: i8) -> (section: Section)
        ensures
            section.y == y,
            section.is_generated(),
            section.block_states.words() == Seq::new(WORDS as nat, |i: int| 0i64),
    {
        Section {
            y,
            block_states: BlockState::with_palette(Chunk::default_palette()),
            biomes: Biomes::default(),
        }
    }
}

/// A word of nothing but air holds the index zero at every position.
pub proof fn lemma_air(z: int)
    requires
        0 <= z < 16,
    ensures
        nibble(0i64, z) == 0,
{
    let t: u32 = (4 * z) as u32;
    assert(((0i64 >> t) & 0xf) == 0) by (bit_vector);
}

impl Chunk {
    /// The sections stand in the order of their heights, from the lowest
    /// section of the world upward without a gap, and each holds its 256 words.
    pub open spec fn wf(&self) -> bool {
        &&& 1 <= self.sections@.len() <= MAX_SECTIONS
        &&& forall|i: int|
            0 <= i < self.sections@.len() ==> (#[trigger] self.sections@[i]).y == MIN_SECTION + i
                && self.sections@[i].block_states.wf()
    }

    /// The height above the highest layer that the sections cover.
    pub open spec fn top(&self) -> int {
        MIN_Y + 16 * self.sections@.len()
    }

    /// The palette index of the block at `(x, y, z)`, where `x` and `z` are
    /// local to the chunk and `y` is a height of the world. What lies outside
    /// the sections is air.
    pub open spec fn block_at(&self, x: int, y: int, z: int) -> int {
        if MIN_Y <= y < self.top() {
            self.sections@[(y - MIN_Y) / 16].block_states.block_at(x, (y - MIN_Y) % 16, z)
        } else {
            0
        }
    }

    /// Whether everything but the blocks and the position is as in a new
    /// chunk, and every section as the voxelizer makes them.
    pub open spec fn is_generated(&self) -> bool {
        &&& self.wf()
        &&& self.data_version == DATA_VERSION
        &&& self.y_pos == MIN_Y
        &&& self.status@ == "minecraft:full"@
        &&& forall|i: int|
            0 <= i < self.sections@.len() ==> (#[trigger] self.sections@[i]).is_generated()
    }

    /// Whether this is a new chunk: one section, its lowest layer the floor
    /// and the rest air.
    pub open spec fn is_new(&self) -> bool {
        &&& self.is_generated()
        &&& self.x_pos == 0
        &&& self.z_pos == 0
        &&& self.sections@.len() == 1
        &&& forall|x: int, y: int, z: int|
            0 <= x < 16 && 0 <= z < 16 ==> #[trigger] self.block_at(x, y, z) == if y == MIN_Y {
                BEDROCK as int
            } else {
                AIR as int
            }
    }

    /// A new chunk, whatever the argument.
    pub fn into_arr(_index: usize) -> (chunk: Chunk)
        ensures
            chunk.is_new(),
    {
        Chunk::default()
    }

    /// The number of sections that a chunk needs to hold the layer `y`.
    pub open spec fn sections_for(y: int) -> int {
        (y - MIN_Y) / 16 + 1
    }

    /// Whether `self` comes from `old` by a change of blocks and by new
    /// sections on top alone: position and marks are kept, and so are the
    /// palette and the biomes of every section that `old` has.
    pub open spec fn extends(&self, old: Chunk) -> bool {
        &&& self.data_version == old.data_version
        &&& self.x_pos == old.x_pos
        &&& self.z_pos == old.z_pos
        &&& self.y_pos == old.y_pos
        &&& self.status == old.status
        &&& self.sections@.len() >= old.sections@.len()
        &&& forall|i: int|
            0 <= i < old.sections@.len() ==> (#[trigger] self.sections@[i]).block_states.palette
                == old.sections@[i].block_states.palette && self.sections@[i].biomes
                == old.sections@[i].biomes
        &&& forall|i: int|
            old.sections@.len() <= i < self.sections@.len() ==> (
            #[trigger] self.sections@[i]).is_generated()
    }

    /// Adds sections of air on top until the chunk has `count` of them.
    fn grow_to(&mut self, count: usize)
        requires
            old(self).wf(),
            count <= MAX_SECTIONS,
        ensures
            final(self).wf(),
            final(self).extends(*old(self)),
            final(self).sections@.len() == if count > old(self).sections@.len() {
                count as int
            } else {
                old(self).sections@.len() as int
            },
            forall|i: int|
                0 <= i < old(self).sections@.len() ==> (#[trigger] final(self).sections@[i])
                    == old(self).sections@[i],
            forall|i: int|
                old(self).sections@.len() <= i < final(self).sections@.len() ==> (
                #[trigger] final(self).sections@[i]).block_states.words() == Seq::new(
                    WORDS as nat,
                    |k: int| 0i64,
                ),
    {
        while self.sections.len() < count
            invariant
                self.wf(),
                count <= MAX_SECTIONS,
                self.extends(*old(self)),
                self.sections@.len() <= count || self.sections@.len() == old(self).sections@.len(),
                forall|i: int|
                    0 <= i < old(self).sections@.len() ==> (#[trigger] self.sections@[i])
                        == old(self).sections@[i],
                forall|i: int|
                    old(self).sections@.len() <= i < self.sections@.len() ==> (
                    #[trigger] self.sections@[i]).block_states.words() == Seq::new(
                        WORDS as nat,
                        |k: int| 0i64,
                    ),
            decreases count - self.sections@.len(),
        {
            let y: i8 = MIN_SECTION + (self.sections.len() as i8);
            self.sections.push(Section::empty(y));
        }
    }

    /// Sets the blocks of the column `(x, z)` from the height `start_height`
    /// up to, not including, `end_height` to the palette index `idx`. Sections
    /// are added on top where the column reaches beyond the highest one.
    pub fn draw_height(&mut self, x: usize, z: usize, start_height: i32, end_height: i32, idx: i8)
        requires
            old(self).wf(),
            x < 16,
            z < 16,
            start_height < end_height ==> MIN_Y <= start_height && end_height <= MAX_Y,
        ensures
            final(self).wf(),
            final(self).extends(*old(self)),
            final(self).sections@.len() == if start_height < end_height && Self::sections_for(
                end_height - 1,
            ) > old(self).sections@.len() {
                Self::sections_for(end_height - 1)
            } else {
                old(self).sections@.len() as int
            },
            forall|bx: int, by: int, bz: int|
                0 <= bx < 16 && 0 <= bz < 16 ==> #[trigger] final(self).block_at(bx, by, bz)
                    == if bx == x && bz == z && start_height <= by < end_height {
                    stored(idx)
                } else {
                    old(self).block_at(bx, by, bz)
                },
    {
        let mut i: i32 = start_height;
        while i < end_height
            invariant
                self.wf(),
                x < 16,
                z < 16,
                start_height <= i,
                start_height < end_height ==> MIN_Y <= start_height && i <= end_height <= MAX_Y,
                start_height >= end_height ==> i == start_height,
                self.extends(*old(self)),
                self.sections@.len() == if start_height < i && Self::sections_for(i - 1)
                    > old(self).sections@.len() {
                    Self::sections_for(i - 1)
                } else {
                    old(self).sections@.len() as int
                },
                forall|bx: int, by: int, bz: int|
                    0 <= bx < 16 && 0 <= bz < 16 ==> #[trigger] self.block_at(bx, by, bz) == if bx
                        == x && bz == z && start_height <= by < i {
                        stored(idx)
                    } else {
                        old(self).block_at(bx, by, bz)
                    },
            decreases end_height - i,
        {
            let rel: usize = (i - MIN_Y) as usize;
            let next_idx: usize = rel / 16;
            let ghost before = *self;
            self.grow_to(next_idx + 1);
            let ghost grown = *self;
            proof {
                assert forall|bx: int, by: int, bz: int|
                    0 <= bx < 16 && 0 <= bz < 16 implies #[trigger] grown.block_at(bx, by, bz)
                    == before.block_at(bx, by, bz) by {
                    if before.top() <= by < grown.top() {
                        lemma_air(bz);
                    }
                }
            }
            let height_start: usize = rel % 16;
            let left: usize = (end_height - i) as usize;
            let height_draw: usize = if 16 - height_start < left {
                16 - height_start
            } else {
                left
            };
            self.sections[next_idx].block_states.draw_height(
                idx,
                x,
                z,
                height_start,
                height_start + height_draw,
            );
            proof {
                assert forall|k: int| 0 <= k < self.sections@.len() implies (
                #[trigger] self.sections@[k]).y == MIN_SECTION + k
                    && self.sections@[k].block_states.wf() by {
                    if k != next_idx {
                        assert(self.sections@[k] == grown.sections@[k]);
                    }
                }
                assert forall|bx: int, by: int, bz: int|
                    0 <= bx < 16 && 0 <= bz < 16 implies #[trigger] self.block_at(bx, by, bz)
                    == if bx == x && bz == z && start_height <= by < i + height_draw {
                    stored(idx)
                } else {
                    old(self).block_at(bx, by, bz)
                } by {
                    assert(grown.block_at(bx, by, bz) == before.block_at(bx, by, bz));
                    if MIN_Y <= by < self.top() {
                        let k = (by - MIN_Y) / 16;
                        let ly = (by - MIN_Y) % 16;
                        if k != next_idx {
                            assert(self.sections@[k] == grown.sections@[k]);
                        } else {
                            assert(by == MIN_Y + 16 * next_idx + ly);
                            assert(i == MIN_Y + 16 * next_idx + height_start);
                            assert(self.sections@[k].block_states.block_at(bx, ly, bz) == if bx
                                == x && bz == z && height_start <= ly < height_start
                                + height_draw {
                                stored(idx)
                            } else {
                                grown.sections@[k].block_states.block_at(bx, ly, bz)
                            });
                        }
                    }
                }
            }
            i = i + height_draw as i32;
        }
    }

    /// The palette of every generated section.
    pub fn default_palette() -> (palette: Vec<Block>)
        ensures
            is_default_palette(palette@),
    {
        let mut palette: Vec<Block> = Vec::with_capacity(4);
        palette.push(Block { name: "minecraft:air".to_string(), properties: HashMap::new() });
        palette.push(Block { name: "minecraft:bedrock".to_string(), properties: HashMap::new() });
        palette.push(Block { name: "minecraft:stone".to_string(), properties: HashMap::new() });
        palette.push(Block { name: "minecraft:water".to_string(), properties: HashMap::new() });
        palette
    }
}

/// The sections of a well-formed chunk have no gap: their vertical indices
/// start at the lowest section of the world and rise by one from each section
/// to the next.
pub proof fn lemma_sections_contiguous(chunk: Chunk)
    requires
        chunk.wf(),
    ensures
        chunk.sections@[0].y == MIN_SECTION,
        forall|i: int|
            0 <= i < chunk.sections@.len() - 1 ==> (#[trigger] chunk.sections@[i + 1]).y
                == chunk.sections@[i].y + 1,
        forall|i: int, j: int|
            0 <= i < j < chunk.sections@.len() ==> (#[trigger] chunk.sections@[i]).y < (
            #[trigger] chunk.sections@[j]).y,
{
}

impl Default for Chunk {
    fn default() -> (chunk: Self)
        ensures
            chunk.is_new(),
    {
        let mut bottom = Section::empty(MIN_SECTION);
        bottom.block_states.fill_layer(BEDROCK, 0);
        let mut sections: Vec<Section> = Vec::new();
        sections.push(bottom);
        let chunk = Chunk {
            data_version: DATA_VERSION,
            x_pos: 0,
            y_pos: MIN_Y,
            z_pos: 0,
            status: "minecraft:full".to_string(),
            sections,
        };
        proof {
            assert forall|x: int, y: int, z: int|
                0 <= x < 16 && 0 <= z < 16 implies #[trigger] chunk.block_at(x, y, z) == if y
                == MIN_Y {
                BEDROCK as int
            } else {
                AIR as int
            } by {
                if MIN_Y < y < chunk.top() {
                    let by = (y - MIN_Y) % 16;
                    assert(chunk.sections@[0].block_states.block_at(x, by, z) == nibble(0i64, z));
                    lemma_air(z);
                }
            }
        }
        chunk
    }
}

} // verus!
