//! The shape of the terrain: sample heights, and the height up to which each
//! column of blocks is filled.
use vstd::prelude::*;

use crate::esm::cell::Cell;
use crate::esm::ieee::{
    floor_of, has_fraction, is_nan, single_floor, single_has_fraction, single_is_nan, REACH,
};
use crate::esm::land::{Land, LandView, SAMPLES};
use crate::world_gen::block_state::stored;
use crate::world_gen::chunk::{Chunk, AIR, BEDROCK, MAX_Y, MIN_Y, STONE};
use crate::world_gen::region::{region_of, CELLS_PER_REGION};
use crate::world_gen::WorldGenError;

verus! {

/// The number of samples along one edge of a heightfield.
pub const GRID: usize = 33;

/// The height of the first sample of row `r`, without the fraction of the
/// stored offset: the floor of the offset and the first differences of all
/// rows up to `r`, added up.
pub open spec fn column_base(land: LandView, r: int) -> int
    decreases r + 1,
{
    if r < 0 {
        floor_of(land.offset_height)
    } else {
        column_base(land, r - 1) + land.height_gradient[r * GRID as int]
    }
}

/// What the sample `c` of row `r` lies above the first sample of its row: the
/// differences of the row from the second up to `c`, added up.
pub open spec fn row_offset(land: LandView, r: int, c: int) -> int
    decreases c,
{
    if c <= 0 {
        0
    } else {
        row_offset(land, r, c - 1) + land.height_gradient[r * GRID as int + c]
    }
}

/// The height of the sample `c` of row `r`, in eighths of a block and without
/// the fraction of the stored offset. The sample itself lies that fraction
/// higher: the differences are whole, so every sample has the fraction of the
/// offset.
pub open spec fn sample_height(land: LandView, r: int, c: int) -> int {
    column_base(land, r) + row_offset(land, r, c)
}

/// The heights of all samples, row by row.
pub open spec fn heights_of(land: LandView) -> Seq<int> {
    Seq::new(SAMPLES as nat, |i: int| sample_height(land, i / (GRID as int), i % (GRID as int)))
}

/// Whether the heights of the samples can be held in machine integers: the
/// stored offset is a number, and its floor lies within `REACH`.
pub open spec fn in_reach(land: LandView) -> bool {
    !is_nan(land.offset_height) && -REACH < floor_of(land.offset_height) < REACH
}

/// A sequence of machine integers as mathematical ones.
pub open spec fn as_ints(values: Seq<i64>) -> Seq<int> {
    values.map_values(|value: i64| value as int)
}

/// The first sample of a row lies within 128 times the number of rows of the
/// floor of the offset.
pub proof fn lemma_column_base_bounds(land: LandView, r: int)
    requires
        -1 <= r,
    ensures
        floor_of(land.offset_height) - 128 * (r + 1) <= column_base(land, r) <= floor_of(
            land.offset_height,
        ) + 128 * (r + 1),
    decreases r + 1,
{
    if r >= 0 {
        lemma_column_base_bounds(land, r - 1);
    }
}

/// A sample lies within 128 times its place in the row of the first sample
/// of its row.
pub proof fn lemma_row_offset_bounds(land: LandView, r: int, c: int)
    requires
        0 <= c,
    ensures
        -128 * c <= row_offset(land, r, c) <= 128 * c,
    decreases c,
{
    if c > 0 {
        lemma_row_offset_bounds(land, r, c - 1);
    }
}

/// The height of the first sample of a row depends on the offset and the
/// differences alone.
proof fn lemma_column_base_same(a: LandView, b: LandView, r: int)
    requires
        a.offset_height == b.offset_height,
        a.height_gradient == b.height_gradient,
    ensures
        column_base(a, r) == column_base(b, r),
    decreases r + 1,
{
    if r >= 0 {
        lemma_column_base_same(a, b, r - 1);
    }
}

/// What a sample lies above the first of its row depends on the differences
/// alone.
proof fn lemma_row_offset_same(a: LandView, b: LandView, r: int, c: int)
    requires
        a.height_gradient == b.height_gradient,
    ensures
        row_offset(a, r, c) == row_offset(b, r, c),
    decreases c,
{
    if c > 0 {
        lemma_row_offset_same(a, b, r, c - 1);
    }
}

/// Reconstruction is a function of the offset and of the sequence of
/// differences: two heightfields that agree in both have the same heights,
/// sample by sample, whatever else they hold.
pub proof fn lemma_heights_reproducible(a: LandView, b: LandView)
    requires
        a.offset_height == b.offset_height,
        a.height_gradient == b.height_gradient,
    ensures
        heights_of(a) == heights_of(b),
{
    assert forall|i: int| 0 <= i < SAMPLES implies heights_of(a)[i] == heights_of(b)[i] by {
        lemma_column_base_same(a, b, i / (GRID as int));
        lemma_row_offset_same(a, b, i / (GRID as int), i % (GRID as int));
    }
    assert(heights_of(a) =~= heights_of(b));
}

/// Reconstructs the height of every sample from the stored offset and the
/// differences, in eighths of a block and without the fraction of the offset.
/// A height depends on the differences before it in its row and on the first
/// difference of every row before it, so the result changes with the order
/// of the differences. An offset that is no number, or whose floor lies at
/// `REACH` or beyond, is refused: its heights cannot be held.
pub fn reconstruct_heights(land: &Land) -> (r: Result<Vec<i64>, WorldGenError>)
    ensures
        match r {
            Ok(heights) => land.height_gradient@.len() == SAMPLES && in_reach(land@)
                && heights@.len() == SAMPLES && as_ints(heights@) == heights_of(land@),
            Err(e) => if land.height_gradient@.len() != SAMPLES {
                e == WorldGenError::SampleCount
            } else {
                e == WorldGenError::OffsetOutOfReach && !in_reach(land@)
            },
        },
{
    if land.height_gradient.len() != SAMPLES {
        return Err(WorldGenError::SampleCount);
    }
    let floor = single_floor(land.offset_height);
    if single_is_nan(land.offset_height) || floor <= -REACH || floor >= REACH {
        return Err(WorldGenError::OffsetOutOfReach);
    }
    let mut heights: Vec<i64> = Vec::with_capacity(SAMPLES);
    let mut curr_offset: i64 = floor;
    let mut r: usize = 0;
    while r < GRID
        invariant
            r <= GRID,
            land.height_gradient@.len() == SAMPLES,
            heights@.len() == r * GRID,
            curr_offset == column_base(land@, r - 1),
            -REACH - 128 * r <= curr_offset <= REACH + 128 * r,
            forall|i: int|
                0 <= i < r * GRID ==> #[trigger] heights@[i] == sample_height(
                    land@,
                    i / (GRID as int),
                    i % (GRID as int),
                ),
        decreases GRID - r,
    {
        curr_offset = curr_offset + land.height_gradient[r * GRID] as i64;
        let mut along: i64 = 0;
        let mut c: usize = 0;
        while c < GRID
            invariant
                r < GRID,
                c <= GRID,
                land.height_gradient@.len() == SAMPLES,
                heights@.len() == r * GRID + c,
                curr_offset == column_base(land@, r as int),
                along == row_offset(land@, r as int, c - 1),
                -REACH - 128 * (r + 1) <= curr_offset <= REACH + 128 * (r + 1),
                -128 * c <= along <= 128 * c,
                forall|i: int|
                    0 <= i < r * GRID + c ==> #[trigger] heights@[i] == sample_height(
                        land@,
                        i / (GRID as int),
                        i % (GRID as int),
                    ),
            decreases GRID - c,
        {
            if c > 0 {
                along = along + land.height_gradient[r * GRID + c] as i64;
            }
            proof {
                let i = r * GRID + c;
                assert(i / (GRID as int) == r && i % (GRID as int) == c);
            }
            heights.push(along + curr_offset);
            c += 1;
        }
        r += 1;
    }
    proof {
        assert(as_ints(heights@) =~= heights_of(land@));
    }
    Ok(heights)
}

/// The height up to which, not including it, a column is filled whose sample
/// lies at `n` eighths of a block, and a fraction of an eighth above that
/// where `fraction` holds.
///
/// The column ends one block above the sample, rounded to a whole block. A
/// sample between two blocks is rounded to the nearer one. One exactly
/// half-way, which a sample with a fraction never is, is rounded to the block
/// that makes the stretch from `base` even, where `base` is the height at
/// which the last run of drawing starts: the floor of the world, or the lowest
/// layer of a section. No column is rounded beyond the section that its last
/// run is drawn in, and none that ends at the floor or below is rounded at all.
pub open spec fn column_top(n: int, fraction: bool) -> int {
    let whole = n / 8 + 1;
    let part = n % 8;
    let base = if whole <= MIN_Y + 16 {
        MIN_Y + 1
    } else {
        16 * ((whole - 1) / 16)
    };
    let up = if fraction {
        part >= 4
    } else {
        part > 4 || (part == 4 && (whole - base) % 2 == 1)
    };
    if whole > MIN_Y + 1 && up && whole % 16 != 0 {
        whole + 1
    } else {
        whole
    }
}

/// Computes the height up to which a column is filled.
pub fn column_end(n: i64, fraction: bool) -> (top: i64)
    ensures
        top == column_top(n as int, fraction),
{
    let (eighths, part): (i64, i64) = if n >= 0 {
        (n / 8, n % 8)
    } else {
        let below: i64 = -(n + 1);
        (-(below / 8) - 1, 7 - below % 8)
    };
    assert(eighths == n as int / 8 && part == n as int % 8);
    let whole: i64 = eighths + 1;
    if whole <= MIN_Y as i64 + 1 {
        return whole;
    }
    let base: i64 = if whole <= MIN_Y as i64 + 16 {
        MIN_Y as i64 + 1
    } else if whole >= 1 {
        16 * ((whole - 1) / 16)
    } else {
        -16 * ((-whole) / 16) - 16
    };
    assert(whole > MIN_Y + 16 ==> base == 16 * ((whole - 1) / 16));
    let ends_section = if whole <= MIN_Y as i64 + 16 {
        whole == MIN_Y as i64 + 16
    } else {
        whole - base == 16
    };
    assert(ends_section == (whole % 16 == 0));
    let up = if fraction {
        part >= 4
    } else {
        part > 4 || (part == 4 && (whole - base) % 2 == 1)
    };
    if up && !ends_section {
        whole + 1
    } else {
        whole
    }
}

/// The tops of the columns of samples at the heights `heights`.
pub open spec fn tops_of(heights: Seq<i64>, fraction: bool) -> Seq<int> {
    Seq::new(heights.len(), |i: int| column_top(heights[i] as int, fraction))
}

/// The tops of the columns of a heightfield, sample by sample. A stored
/// offset that is no number leaves every column at the floor of the world:
/// no height compares with it, so nothing is drawn.
pub open spec fn land_tops(land: LandView) -> Seq<int> {
    Seq::new(
        SAMPLES as nat,
        |i: int|
            if is_nan(land.offset_height) {
                MIN_Y + 1
            } else {
                column_top(heights_of(land)[i], has_fraction(land.offset_height))
            },
    )
}

/// The number of chunks along one edge of a terrain unit.
pub const CHUNKS_PER_CELL: i32 = 4;

/// The index of the sample that the column `(x, z)` of the chunk `k` takes
/// its height from. A terrain unit has four rows of four chunks; a chunk has
/// eight by eight samples, each two blocks wide and deep.
pub open spec fn vertex_of(k: int, x: int, z: int) -> int {
    ((k / 4) * 8 + z / 2) * GRID + (k % 4) * 8 + x / 2
}

/// The height up to which the column `(x, z)` of the chunk `k` is filled,
/// where `tops` holds the top of the column of every sample.
pub open spec fn terrain_top(tops: Seq<int>, k: int, x: int, z: int) -> int {
    tops[vertex_of(k, x, z)]
}

/// The palette index of the block at `(x, y, z)` of the chunk `k`: the floor
/// at the lowest layer of the world, stone from there up to the top of the
/// column, air above.
pub open spec fn terrain_block(tops: Seq<int>, k: int, x: int, y: int, z: int) -> int {
    if y == MIN_Y {
        BEDROCK as int
    } else if MIN_Y < y < terrain_top(tops, k, x, z) {
        STONE as int
    } else {
        AIR as int
    }
}

/// Whether a column of the chunk `k` reaches beyond what a chunk can hold.
pub open spec fn chunk_too_high(tops: Seq<int>, k: int) -> bool {
    exists|x: int, z: int|
        0 <= x < 16 && 0 <= z < 16 && #[trigger] terrain_top(tops, k, x, z) > MAX_Y
}

/// Whether a column of any chunk reaches beyond what a chunk can hold.
pub open spec fn too_high(tops: Seq<int>) -> bool {
    exists|k: int| 0 <= k < 16 && #[trigger] chunk_too_high(tops, k)
}

/// Whether `chunk` holds the terrain of the chunk `k`: every column filled
/// to its top, and no more sections than the highest column needs.
pub open spec fn is_terrain_chunk(chunk: Chunk, tops: Seq<int>, k: int) -> bool {
    &&& chunk.is_generated()
    &&& forall|x: int, z: int|
        0 <= x < 16 && 0 <= z < 16 ==> #[trigger] terrain_top(tops, k, x, z) <= chunk.top()
    &&& chunk.sections@.len() == 1 || exists|x: int, z: int|
        0 <= x < 16 && 0 <= z < 16 && #[trigger] terrain_top(tops, k, x, z) > chunk.top() - 16
    &&& forall|x: int, y: int, z: int|
        0 <= x < 16 && 0 <= z < 16 ==> #[trigger] chunk.block_at(x, y, z) == terrain_block(
            tops,
            k,
            x,
            y,
            z,
        )
}

/// Where no column rises above the floor of the world, it does not matter
/// how far below it ends: a chunk that holds the terrain of such tops holds
/// that of any other such tops.
pub proof fn lemma_sunken(chunk: Chunk, a: Seq<int>, b: Seq<int>, k: int)
    requires
        0 <= k < 16,
        a.len() == SAMPLES,
        b.len() == SAMPLES,
        forall|i: int| 0 <= i < SAMPLES ==> #[trigger] a[i] <= MIN_Y + 1,
        forall|i: int| 0 <= i < SAMPLES ==> #[trigger] b[i] <= MIN_Y + 1,
        is_terrain_chunk(chunk, a, k),
    ensures
        is_terrain_chunk(chunk, b, k),
        !chunk_too_high(b, k),
{
    assert forall|x: int, z: int| 0 <= x < 16 && 0 <= z < 16 implies #[trigger] terrain_top(
        b,
        k,
        x,
        z,
    ) <= MIN_Y + 1 && terrain_top(a, k, x, z) <= MIN_Y + 1 by {
        assert(0 <= vertex_of(k, x, z) < SAMPLES);
    }
    assert forall|x: int, y: int, z: int|
        0 <= x < 16 && 0 <= z < 16 implies #[trigger] chunk.block_at(x, y, z) == terrain_block(
        b,
        k,
        x,
        y,
        z,
    ) by {
        assert(chunk.block_at(x, y, z) == terrain_block(a, k, x, y, z));
        assert(terrain_top(a, k, x, z) <= MIN_Y + 1);
        assert(terrain_top(b, k, x, z) <= MIN_Y + 1);
    }
    if chunk.sections@.len() != 1 {
        let (x, z) = choose|x: int, z: int|
            0 <= x < 16 && 0 <= z < 16 && #[trigger] terrain_top(a, k, x, z) > chunk.top() - 16;
        assert(terrain_top(a, k, x, z) <= MIN_Y + 1);
    }
}

/// A chunk that extends an extension of a third chunk extends that one.
pub proof fn lemma_extends_twice(a: Chunk, b: Chunk, c: Chunk)
    requires
        b.extends(a),
        c.extends(b),
        c.wf(),
    ensures
        c.extends(a),
{
    assert forall|i: int| a.sections@.len() <= i < c.sections@.len() implies (
    #[trigger] c.sections@[i]).is_generated() by {
        if i < b.sections@.len() {
            assert(b.sections@[i].is_generated());
            assert(c.sections@[i].block_states.palette == b.sections@[i].block_states.palette);
        }
    }
}

/// A generated chunk stays one when it is extended.
pub proof fn lemma_extends_generated(a: Chunk, b: Chunk)
    requires
        a.is_generated(),
        b.extends(a),
        b.wf(),
    ensures
        b.is_generated(),
{
    assert forall|i: int| 0 <= i < b.sections@.len() implies (
    #[trigger] b.sections@[i]).is_generated() by {
        if i < a.sections@.len() {
            assert(a.sections@[i].is_generated());
            assert(b.sections@[i].block_states.palette == a.sections@[i].block_states.palette);
        }
    }
}

/// Fills the four columns of the sample `(vx, vz)` of a chunk with stone, from
/// above the floor up to, not including, `top`.
fn draw_vertex(chunk: &mut Chunk, vx: usize, vz: usize, top: i64)
    requires
        old(chunk).wf(),
        vx < 8,
        vz < 8,
        top <= MAX_Y,
    ensures
        final(chunk).wf(),
        final(chunk).extends(*old(chunk)),
        final(chunk).sections@.len() == if MIN_Y + 1 < top && Chunk::sections_for(top - 1)
            > old(chunk).sections@.len() {
            Chunk::sections_for(top - 1)
        } else {
            old(chunk).sections@.len() as int
        },
        forall|x: int, y: int, z: int|
            0 <= x < 16 && 0 <= z < 16 ==> #[trigger] final(chunk).block_at(x, y, z) == if x / 2
                == vx && z / 2 == vz && MIN_Y < y < top {
                STONE as int
            } else {
                old(chunk).block_at(x, y, z)
            },
{
    let start_height = MIN_Y + 1;
    if top <= start_height as i64 {
        return ;
    }
    let top: i32 = top as i32;
    let block_x = vx * 2;
    let block_z = vz * 2;
    chunk.draw_height(block_x, block_z, start_height, top, STONE);
    let ghost first = *chunk;
    chunk.draw_height(block_x + 1, block_z, start_height, top, STONE);
    let ghost second = *chunk;
    chunk.draw_height(block_x, block_z + 1, start_height, top, STONE);
    let ghost third = *chunk;
    chunk.draw_height(block_x + 1, block_z + 1, start_height, top, STONE);
    proof {
        lemma_extends_twice(*old(chunk), first, second);
        lemma_extends_twice(*old(chunk), second, third);
        lemma_extends_twice(*old(chunk), third, *chunk);
        assert(stored(STONE) == STONE as int);
        assert forall|x: int, y: int, z: int|
            0 <= x < 16 && 0 <= z < 16 implies #[trigger] chunk.block_at(x, y, z) == if x / 2
            == vx && z / 2 == vz && MIN_Y < y < top {
            STONE as int
        } else {
            old(chunk).block_at(x, y, z)
        } by {
            assert(third.block_at(x, y, z) == if x == block_x && z == block_z + 1 && start_height
                <= y < top {
                stored(STONE)
            } else {
                second.block_at(x, y, z)
            });
            assert(second.block_at(x, y, z) == if x == block_x + 1 && z == block_z && start_height
                <= y < top {
                stored(STONE)
            } else {
                first.block_at(x, y, z)
            });
            assert(first.block_at(x, y, z) == if x == block_x && z == block_z && start_height <= y
                < top {
                stored(STONE)
            } else {
                old(chunk).block_at(x, y, z)
            });
        }
    }
}

/// The palette index of a block of a new chunk.
pub open spec fn new_block(y: int) -> int {
    if y == MIN_Y {
        BEDROCK as int
    } else {
        AIR as int
    }
}

/// Whether the column `(x, z)` belongs to one of the first `v` samples of a
/// chunk, counted row by row.
pub open spec fn drawn(v: int, x: int, z: int) -> bool {
    (z / 2) * 8 + x / 2 < v
}

/// Builds the chunk `k` of a terrain unit from the heights of its samples,
/// which all lie a fraction higher where `fraction` holds: a new chunk at the
/// given position, with every column filled with stone up to its top. A
/// column beyond what a chunk can hold is refused.
pub fn build_chunk(heights: &Vec<i64>, fraction: bool, k: usize, x_pos: i32, z_pos: i32) -> (r:
    Result<Chunk, WorldGenError>)
    requires
        k < 16,
    ensures
        match r {
            Ok(chunk) => heights@.len() == SAMPLES && !chunk_too_high(
                tops_of(heights@, fraction),
                k as int,
            ) && is_terrain_chunk(chunk, tops_of(heights@, fraction), k as int) && chunk.x_pos
                == x_pos && chunk.z_pos == z_pos,
            Err(e) => if heights@.len() != SAMPLES {
                e == WorldGenError::SampleCount
            } else {
                e == WorldGenError::TooHigh && chunk_too_high(
                    tops_of(heights@, fraction),
                    k as int,
                )
            },
        },
{
    if heights.len() != SAMPLES {
        return Err(WorldGenError::SampleCount);
    }
    let ghost tops = tops_of(heights@, fraction);
    let mut chunk = Chunk::into_arr(k);
    let ghost fresh = chunk;
    chunk.x_pos = x_pos;
    chunk.z_pos = z_pos;
    proof {
        assert forall|x: int, y: int, z: int|
            0 <= x < 16 && 0 <= z < 16 implies #[trigger] chunk.block_at(x, y, z) == new_block(
            y,
        ) by {
            assert(fresh.block_at(x, y, z) == new_block(y));
        }
    }
    let first_row: usize = (k / 4) * 8;
    let first_col: usize = (k % 4) * 8;
    let ghost mut wx: int = 0;
    let ghost mut wz: int = 0;
    let mut v: usize = 0;
    while v < 64
        invariant
            v <= 64,
            k < 16,
            first_row == (k / 4) * 8,
            first_col == (k % 4) * 8,
            heights@.len() == SAMPLES,
            tops == tops_of(heights@, fraction),
            chunk.is_generated(),
            chunk.x_pos == x_pos,
            chunk.z_pos == z_pos,
            forall|x: int, z: int|
                0 <= x < 16 && 0 <= z < 16 && drawn(v as int, x, z) ==> #[trigger] terrain_top(
                    tops,
                    k as int,
                    x,
                    z,
                ) <= MAX_Y && terrain_top(tops, k as int, x, z) <= chunk.top(),
            chunk.sections@.len() == 1 || (0 <= wx < 16 && 0 <= wz < 16 && terrain_top(
                tops,
                k as int,
                wx,
                wz,
            ) > chunk.top() - 16),
            forall|x: int, y: int, z: int|
                0 <= x < 16 && 0 <= z < 16 ==> #[trigger] chunk.block_at(x, y, z) == if drawn(
                    v as int,
                    x,
                    z,
                ) {
                    terrain_block(tops, k as int, x, y, z)
                } else {
                    new_block(y)
                },
        decreases 64 - v,
    {
        let vz: usize = v / 8;
        let vx: usize = v % 8;
        let at: usize = (first_row + vz) * GRID + first_col + vx;
        let top = column_end(heights[at], fraction);
        proof {
            assert(tops[at as int] == top);
            assert forall|x: int, z: int| 0 <= x < 16 && 0 <= z < 16 && x / 2 == vx && z / 2
                == vz implies vertex_of(k as int, x, z) == at && terrain_top(
                tops,
                k as int,
                x,
                z,
            ) == top by {}
        }
        if top > MAX_Y as i64 {
            proof {
                assert(terrain_top(tops, k as int, 2 * vx, 2 * vz) > MAX_Y);
            }
            return Err(WorldGenError::TooHigh);
        }
        let ghost before = chunk;
        draw_vertex(&mut chunk, vx, vz, top);
        proof {
            lemma_extends_generated(before, chunk);
            if chunk.sections@.len() > before.sections@.len() {
                wx = 2 * vx;
                wz = 2 * vz;
            }
            assert forall|x: int, y: int, z: int|
                0 <= x < 16 && 0 <= z < 16 implies #[trigger] chunk.block_at(x, y, z) == if drawn(
                v + 1,
                x,
                z,
            ) {
                terrain_block(tops, k as int, x, y, z)
            } else {
                new_block(y)
            } by {
                assert(before.block_at(x, y, z) == if drawn(v as int, x, z) {
                    terrain_block(tops, k as int, x, y, z)
                } else {
                    new_block(y)
                });
            }
        }
        v += 1;
    }
    proof {
        assert forall|x: int, z: int| 0 <= x < 16 && 0 <= z < 16 implies drawn(64, x, z) by {}
        if chunk_too_high(tops, k as int) {
            let (x, z) = choose|x: int, z: int|
                0 <= x < 16 && 0 <= z < 16 && #[trigger] terrain_top(tops, k as int, x, z)
                    > MAX_Y;
            assert(drawn(64, x, z));
        }
        if chunk.sections@.len() != 1 {
            assert(terrain_top(tops, k as int, wx, wz) > chunk.top() - 16);
        }
    }
    Ok(chunk)
}

/// The chunks that one terrain unit makes, and the region that takes them.
#[derive(Debug)]
pub struct LandChunks {
    pub region_x: i32,
    pub region_y: i32,
    /// Sixteen chunks, row by row from the lowest `z`.
    pub chunks: Vec<Chunk>,
}

/// Whether the chunk coordinates of a terrain unit fit their type.
pub open spec fn cell_in_range(cell: Cell) -> bool {
    &&& i32::MIN <= CHUNKS_PER_CELL * cell.x
    &&& CHUNKS_PER_CELL * cell.x + 3 <= i32::MAX
    &&& i32::MIN <= CHUNKS_PER_CELL * cell.y
    &&& CHUNKS_PER_CELL * cell.y + 3 <= i32::MAX
}

/// Why a heightfield cannot be made into chunks, if it cannot.
pub open spec fn refusal(land: LandView) -> Option<WorldGenError> {
    if land.height_gradient.len() != SAMPLES {
        Some(WorldGenError::SampleCount)
    } else if !cell_in_range(land.cell) {
        Some(WorldGenError::CellOutOfRange)
    } else if too_high(land_tops(land)) {
        Some(WorldGenError::TooHigh)
    } else {
        None
    }
}

impl LandChunks {
    /// Whether these are the chunks of the heightfield `land`. The region is
    /// that of the terrain unit, eight units to a region edge, rounded down;
    /// the chunk `k` lies at four times the unit's coordinates plus its
    /// column `k % 4` and its row `k / 4`.
    pub open spec fn is_terrain_of(&self, land: LandView) -> bool {
        &&& self.region_x == land.cell.x as int / (CELLS_PER_REGION as int)
        &&& self.region_y == land.cell.y as int / (CELLS_PER_REGION as int)
        &&& self.chunks@.len() == 16
        &&& forall|k: int|
            0 <= k < 16 ==> is_terrain_chunk(#[trigger] self.chunks@[k], land_tops(land), k)
                && self.chunks@[k].x_pos == CHUNKS_PER_CELL * land.cell.x + k % 4
                && self.chunks@[k].z_pos == CHUNKS_PER_CELL * land.cell.y + k / 4
    }
}

/// Where the stored offset is no number, or its floor lies at `-REACH` or
/// below, no column rises above the floor of the world.
pub proof fn lemma_sunken_tops(land: LandView)
    requires
        land.height_gradient.len() == SAMPLES,
        is_nan(land.offset_height) || floor_of(land.offset_height) <= -REACH,
    ensures
        forall|i: int| 0 <= i < SAMPLES ==> #[trigger] land_tops(land)[i] <= MIN_Y + 1,
{
    assert forall|i: int| 0 <= i < SAMPLES implies #[trigger] land_tops(land)[i] <= MIN_Y + 1 by {
        if !is_nan(land.offset_height) {
            lemma_column_base_bounds(land, i / (GRID as int));
            lemma_row_offset_bounds(land, i / (GRID as int), i % (GRID as int));
        }
    }
}

/// Where the floor of the stored offset lies at `REACH` or above, the first
/// column already reaches beyond what a chunk can hold.
pub proof fn lemma_beyond_tops(land: LandView)
    requires
        land.height_gradient.len() == SAMPLES,
        !is_nan(land.offset_height),
        floor_of(land.offset_height) >= REACH,
    ensures
        too_high(land_tops(land)),
{
    lemma_column_base_bounds(land, 0);
    lemma_row_offset_bounds(land, 0, 0);
    assert(vertex_of(0, 0, 0) == 0);
    assert(land_tops(land)[0] > MAX_Y);
    assert(terrain_top(land_tops(land), 0, 0, 0) > MAX_Y);
    assert(chunk_too_high(land_tops(land), 0));
}

/// Heights so far below the floor of the world that nothing is drawn.
fn sunken_heights() -> (heights: Vec<i64>)
    ensures
        heights@.len() == SAMPLES,
        forall|i: int| 0 <= i < SAMPLES ==> #[trigger] heights@[i] == -REACH,
{
    let mut heights: Vec<i64> = Vec::with_capacity(SAMPLES);
    let mut i: usize = 0;
    while i < SAMPLES
        invariant
            i <= SAMPLES,
            heights@.len() == i,
            forall|j: int| 0 <= j < i ==> #[trigger] heights@[j] == -REACH,
        decreases SAMPLES - i,
    {
        heights.push(-REACH);
        i += 1;
    }
    heights
}

/// Turns one heightfield into the sixteen chunks of its terrain unit.
///
/// Each chunk starts as a new chunk; each of its columns is filled with
/// stone from above the floor up to one block above the height of its
/// sample, which is the stored offset and the differences added up. A stored
/// offset that is no number draws nothing. A heightfield of another size than
/// 1089 samples is refused, and so are coordinates and heights that the
/// chunks cannot hold.
pub fn parse_land(land: Land) -> (r: Result<LandChunks, WorldGenError>)
    ensures
        match r {
            Ok(made) => refusal(land@) is None && made.is_terrain_of(land@),
            Err(e) => refusal(land@) == Some(e),
        },
{
    if land.height_gradient.len() != SAMPLES {
        return Err(WorldGenError::SampleCount);
    }
    let limit: i32 = (i32::MAX - 3) / CHUNKS_PER_CELL;
    if land.cell.x < i32::MIN / CHUNKS_PER_CELL || land.cell.x > limit || land.cell.y < i32::MIN
        / CHUNKS_PER_CELL || land.cell.y > limit {
        return Err(WorldGenError::CellOutOfRange);
    }
    let curr_region_x = region_of(land.cell.x);
    let curr_region_y = region_of(land.cell.y);
    let chunk_start_x = land.cell.x * CHUNKS_PER_CELL;
    let chunk_start_z = land.cell.y * CHUNKS_PER_CELL;
    let fraction = single_has_fraction(land.offset_height);
    let floor = single_floor(land.offset_height);
    let sunken = single_is_nan(land.offset_height) || floor <= -REACH;
    if !sunken && floor >= REACH {
        proof {
            lemma_beyond_tops(land@);
        }
        return Err(WorldGenError::TooHigh);
    }
    let heights = if sunken {
        sunken_heights()
    } else {
        match reconstruct_heights(&land) {
            Ok(heights) => heights,
            Err(e) => {
                return Err(e);
            },
        }
    };
    let ghost tops = tops_of(heights@, fraction);
    proof {
        if sunken {
            lemma_sunken_tops(land@);
        } else {
            assert forall|i: int| 0 <= i < SAMPLES implies tops[i] == land_tops(land@)[i] by {
                assert(as_ints(heights@)[i] == heights@[i] as int);
            }
            assert(tops =~= land_tops(land@));
        }
    }
    let mut chunks: Vec<Chunk> = Vec::with_capacity(16);
    let mut k: usize = 0;
    while k < 16
        invariant
            k <= 16,
            heights@.len() == SAMPLES,
            tops == tops_of(heights@, fraction),
            sunken ==> forall|i: int| 0 <= i < SAMPLES ==> #[trigger] tops[i] <= MIN_Y + 1,
            !sunken ==> tops == land_tops(land@),
            land@.height_gradient.len() == SAMPLES,
            cell_in_range(land.cell),
            chunk_start_x == CHUNKS_PER_CELL * land.cell.x,
            chunk_start_z == CHUNKS_PER_CELL * land.cell.y,
            chunks@.len() == k,
            forall|j: int| 0 <= j < k ==> !#[trigger] chunk_too_high(tops, j),
            forall|j: int|
                0 <= j < k ==> is_terrain_chunk(#[trigger] chunks@[j], tops, j)
                    && chunks@[j].x_pos == chunk_start_x + j % 4 && chunks@[j].z_pos
                    == chunk_start_z + j / 4,
        decreases 16 - k,
    {
        let curr_chunk_x: i32 = (k % 4) as i32;
        let curr_chunk_z: i32 = (k / 4) as i32;
        let chunk = match build_chunk(
            &heights,
            fraction,
            k,
            curr_chunk_x + chunk_start_x,
            curr_chunk_z + chunk_start_z,
        ) {
            Ok(chunk) => chunk,
            Err(e) => {
                proof {
                    assert(chunk_too_high(tops, k as int));
                    let (x, z) = choose|x: int, z: int|
                        0 <= x < 16 && 0 <= z < 16 && #[trigger] terrain_top(tops, k as int, x, z)
                            > MAX_Y;
                    assert(0 <= vertex_of(k as int, x, z) < SAMPLES);
                    assert(!sunken);
                    assert(chunk_too_high(land_tops(land@), k as int));
                }
                return Err(e);
            },
        };
        chunks.push(chunk);
        k += 1;
    }
    proof {
        let exact = land_tops(land@);
        assert forall|j: int| 0 <= j < 16 implies is_terrain_chunk(
            #[trigger] chunks@[j],
            exact,
            j,
        ) && !chunk_too_high(exact, j) by {
            if sunken {
                lemma_sunken_tops(land@);
                lemma_sunken(chunks@[j], tops, exact, j);
            }
        }
        if too_high(exact) {
            let j = choose|j: int| 0 <= j < 16 && #[trigger] chunk_too_high(exact, j);
            assert(!chunk_too_high(exact, j));
        }
    }
    Ok(LandChunks { region_x: curr_region_x, region_y: curr_region_y, chunks })
}

} // verus!
