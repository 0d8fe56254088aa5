//! The block states of a section: a palette, and one palette index of four
//! bits for each of its blocks, packed into words.
use std::collections::HashMap;
use vstd::prelude::*;

use crate::world_gen::WorldGenError;

verus! {

/// One block type of a palette.
#[derive(Debug)]
pub struct Block {
    pub name: String,
    pub properties: HashMap<String, String>,
}

/// The palette of a section and the packed palette indices of its blocks.
///
/// A block at the local position `(x, y, z)`, each below sixteen, lies in the
/// word `x + 16 * y`, in the four bits from bit `4 * z` on.
#[derive(Debug)]
pub struct BlockState {
    pub palette: Vec<Block>,
    pub data: Option<Vec<i64>>,
}

/// The number of words of a section's packed data.
pub const WORDS: usize = 256;

/// The palette index that a packed word holds for the position `z`.
pub open spec fn nibble(word: i64, z: int) -> int {
    ((word >> ((4 * z) as u32)) & 0xf) as int
}

/// A packed word with the palette index for the position `z` replaced by the
/// low four bits of `idx`.
pub open spec fn with_nibble(word: i64, z: int, idx: i8) -> i64 {
    (word & !(0xfi64 << ((4 * z) as u32))) | (((idx as i64) & 0xf) << ((4 * z) as u32))
}

/// The palette index that is stored for `idx`: its low four bits.
pub open spec fn stored(idx: i8) -> int {
    (idx as int) % 16
}

/// Replacing one palette index of a word changes that index and no other.
pub proof fn lemma_with_nibble(word: i64, z: int, idx: i8, other: int)
    requires
        0 <= z < 16,
        0 <= other < 16,
    ensures
        nibble(with_nibble(word, z, idx), other) == if other == z {
            stored(idx)
        } else {
            nibble(word, other)
        },
{
    let s: u32 = (4 * z) as u32;
    let t: u32 = (4 * other) as u32;
    let low: i64 = (idx as i64) & 0xf;
    let new: i64 = (word & !(0xfi64 << s)) | (low << s);
    assert(low == (idx as int) % 16 && 0 <= low < 16) by (bit_vector)
        requires
            low == (idx as i64) & 0xf,
    ;
    assert(((new >> t) & 0xf) == if t == s {
        low
    } else {
        (word >> t) & 0xf
    }) by (bit_vector)
        requires
            new == (word & !(0xfi64 << s)) | (low << s),
            0 <= low < 16,
            s % 4 == 0 && s < 64,
            t % 4 == 0 && t < 64,
    ;
}

/// The word of a layer that is filled for `idx`: `idx` shifted to each of the
/// first `n` positions, all combined.
pub open spec fn layer_word(idx: i8, n: nat) -> i64
    decreases n,
{
    if n == 0 {
        0
    } else {
        layer_word(idx, (n - 1) as nat) | ((idx as i64) << ((4 * (n - 1)) as u32))
    }
}

/// For a palette index below sixteen, the word of a filled layer holds that
/// index at each of its first `n` positions.
pub proof fn lemma_layer_word(idx: i8, n: nat, z: int)
    requires
        0 <= idx < 16,
        0 <= z < 16,
        n <= 16,
    ensures
        nibble(layer_word(idx, n), z) == if z < n {
            idx as int
        } else {
            0
        },
    decreases n,
{
    if n == 0 {
        let t: u32 = (4 * z) as u32;
        assert(((0i64 >> t) & 0xf) == 0) by (bit_vector);
    } else {
        lemma_layer_word(idx, (n - 1) as nat, z);
        let before: i64 = layer_word(idx, (n - 1) as nat);
        let s: u32 = (4 * (n - 1)) as u32;
        let t: u32 = (4 * z) as u32;
        let wide: i64 = idx as i64;
        let after: i64 = before | (wide << s);
        assert(((after >> t) & 0xf) == if t == s {
            ((before >> t) & 0xf) | wide
        } else {
            (before >> t) & 0xf
        }) by (bit_vector)
            requires
                after == before | (wide << s),
                0 <= wide < 16,
                s % 4 == 0 && s < 64,
                t % 4 == 0 && t < 64,
        ;
        assert((0i64 | wide) == wide) by (bit_vector);
    }
}

impl BlockState {
    /// The packed data is present and holds 256 words, and the palette is
    /// short enough for four-bit indices.
    pub open spec fn wf(&self) -> bool {
        &&& self.palette@.len() < 16
        &&& self.data is Some
        &&& self.data.unwrap()@.len() == WORDS
    }

    /// The packed words.
    pub open spec fn words(&self) -> Seq<i64> {
        self.data.unwrap()@
    }

    /// The palette index of the block at the local position `(x, y, z)`.
    pub open spec fn block_at(&self, x: int, y: int, z: int) -> int {
        nibble(self.words()[x + 16 * y], z)
    }

    /// A block state of nothing but the first block type of `palette`.
    pub(crate) fn with_palette(palette: Vec<Block>) -> (state: BlockState)
        requires
            palette@.len() < 16,
        ensures
            state.wf(),
            state.palette == palette,
            state.words() == Seq::new(WORDS as nat, |i: int| 0i64),
    {
        let mut dat: Vec<i64> = Vec::with_capacity(WORDS);
        let mut i: usize = 0;
        while i < WORDS
            invariant
                i <= WORDS,
                dat@ == Seq::new(i as nat, |k: int| 0i64),
            decreases WORDS - i,
        {
            dat.push(0);
            i += 1;
        }
        BlockState { palette, data: Some(dat) }
    }

    /// A block state over `palette`, with every block set to the first block
    /// type. A palette of sixteen block types or more is refused, for an index
    /// has four bits.
    pub fn new_from_palette(palette: Vec<Block>) -> (r: Result<BlockState, WorldGenError>)
        ensures
            match r {
                Ok(state) => palette@.len() < 16 && state.wf() && state.palette == palette
                    && state.words() == Seq::new(WORDS as nat, |i: int| 0i64),
                Err(e) => e == WorldGenError::PaletteTooLong && palette@.len() >= 16,
            },
    {
        if palette.len() >= 16 {
            return Err(WorldGenError::PaletteTooLong);
        }
        Ok(Self::with_palette(palette))
    }

    /// Sets the blocks of the column `(x, z)` from `start_y` up to, not
    /// including, `end_y` to the palette index `idx`, of which the low four
    /// bits are stored.
    pub fn draw_height(&mut self, idx: i8, x: usize, z: usize, start_y: usize, end_y: usize)
        requires
            old(self).wf(),
            x < 16,
            z < 16,
            start_y < end_y ==> end_y <= 16,
        ensures
            final(self).wf(),
            final(self).palette == old(self).palette,
            forall|i: int|
                0 <= i < WORDS ==> #[trigger] final(self).words()[i] == if i % 16 == x && start_y
                    <= i / 16 < end_y {
                    with_nibble(old(self).words()[i], z as int, idx)
                } else {
                    old(self).words()[i]
                },
            forall|bx: int, by: int, bz: int|
                0 <= bx < 16 && 0 <= by < 16 && 0 <= bz < 16 ==> #[trigger] final(self).block_at(
                    bx,
                    by,
                    bz,
                ) == if bx == x && bz == z && start_y <= by < end_y {
                    stored(idx)
                } else {
                    old(self).block_at(bx, by, bz)
                },
    {
        let mut dat = self.data.take().unwrap();
        let ghost before = dat@;
        let z_shift: u32 = (z * 4) as u32;
        let mut y: usize = start_y;
        while y < end_y
            invariant
                start_y <= y,
                start_y < end_y ==> y <= end_y <= 16,
                start_y >= end_y ==> y == start_y,
                x < 16,
                z < 16,
                z_shift == 4 * z,
                dat@.len() == WORDS,
                before.len() == WORDS,
                forall|i: int|
                    0 <= i < WORDS ==> #[trigger] dat@[i] == if i % 16 == x && start_y <= i / 16
                        < y {
                        with_nibble(before[i], z as int, idx)
                    } else {
                        before[i]
                    },
            decreases end_y - y,
        {
            let xy_idx: usize = x + (y * 16);
            let curr = dat[xy_idx];
            let zeroed = curr & !(0b1111 << z_shift);
            dat[xy_idx] = zeroed | ((idx as i64 & 0b1111) << z_shift);
            y += 1;
        }
        self.data = Some(dat);
        proof {
            assert forall|bx: int, by: int, bz: int|
                0 <= bx < 16 && 0 <= by < 16 && 0 <= bz < 16 implies #[trigger] self.block_at(
                bx,
                by,
                bz,
            ) == if bx == x && bz == z && start_y <= by < end_y {
                stored(idx)
            } else {
                old(self).block_at(bx, by, bz)
            } by {
                let i = bx + 16 * by;
                assert(i % 16 == bx && i / 16 == by);
                lemma_with_nibble(before[i], z as int, idx, bz);
            }
        }
    }

    /// Sets every block of the layer `y` from the palette index `idx`: each
    /// word of the layer becomes `idx` shifted to all sixteen positions and
    /// combined. For an index below sixteen every block of the layer then
    /// holds that index.
    pub fn fill_layer(&mut self, idx: i8, y: usize)
        requires
            old(self).wf(),
            y < 16,
        ensures
            final(self).wf(),
            final(self).palette == old(self).palette,
            forall|i: int|
                0 <= i < WORDS ==> #[trigger] final(self).words()[i] == if i / 16 == y {
                    layer_word(idx, 16)
                } else {
                    old(self).words()[i]
                },
            forall|bx: int, by: int, bz: int|
                0 <= bx < 16 && 0 <= by < 16 && 0 <= bz < 16 && by != y
                    ==> #[trigger] final(self).block_at(bx, by, bz) == old(self).block_at(
                    bx,
                    by,
                    bz,
                ),
            0 <= idx < 16 ==> forall|bx: int, bz: int|
                0 <= bx < 16 && 0 <= bz < 16 ==> #[trigger] final(self).block_at(bx, y as int, bz)
                    == idx,
    {
        let mut dat = self.data.take().unwrap();
        let ghost before = dat@;
        let idx_64 = idx as i64;
        let mut full: i64 = 0;
        let mut i: u32 = 0;
        while i < 16
            invariant
                i <= 16,
                idx_64 == idx as i64,
                full == layer_word(idx, i as nat),
            decreases 16 - i,
        {
            full |= idx_64 << (i * 4);
            i += 1;
        }
        let mut x: usize = 0;
        while x < 16
            invariant
                x <= 16,
                y < 16,
                dat@.len() == WORDS,
                before.len() == WORDS,
                forall|i: int|
                    0 <= i < WORDS ==> #[trigger] dat@[i] == if i / 16 == y && i % 16 < x {
                        full
                    } else {
                        before[i]
                    },
            decreases 16 - x,
        {
            let xy_idx: usize = x + (y * 16);
            dat[xy_idx] = full;
            x += 1;
        }
        self.data = Some(dat);
        proof {
            assert forall|bx: int, by: int, bz: int|
                0 <= bx < 16 && 0 <= by < 16 && 0 <= bz < 16 && by != y
                    implies #[trigger] self.block_at(bx, by, bz) == old(self).block_at(
                bx,
                by,
                bz,
            ) by {
                let i = bx + 16 * by;
                assert(i % 16 == bx && i / 16 == by);
            }
            if 0 <= idx < 16 {
                assert forall|bx: int, bz: int|
                    0 <= bx < 16 && 0 <= bz < 16 implies #[trigger] self.block_at(bx, y as int, bz)
                    == idx by {
                    let i = bx + 16 * y;
                    assert(i % 16 == bx && i / 16 == y);
                    lemma_layer_word(idx, 16, bz);
                }
            }
        }
    }
}

} // verus!
