//! Regions: which region takes a chunk, at which place, and under which
//! file name.
use vstd::arithmetic::div_mod::lemma_mod_multiples_vanish;
use vstd::prelude::*;
use vstd::string::*;

use crate::esm::land::LandView;
use crate::world_gen::chunk::Chunk;
use crate::world_gen::terrain::LandChunks;

verus! {

/// The number of terrain units along one edge of a region.
pub const CELLS_PER_REGION: i32 = 8;

/// The region coordinate of a terrain unit coordinate: an eighth, rounded
/// down.
pub fn region_of(coordinate: i32) -> (region: i32)
    ensures
        region == coordinate as int / (CELLS_PER_REGION as int),
{
    let lifted: i64 = coordinate as i64 + 0x8000_0000;
    (lifted / 8 - 0x1000_0000) as i32
}

/// The number of chunks along one edge of a region.
pub const CHUNKS_PER_REGION: i32 = 32;

/// Every chunk of a terrain unit lies in the region of the unit: a region
/// has thirty-two chunks to an edge, a terrain unit four.
pub proof fn lemma_chunks_in_region(made: LandChunks, land: LandView, k: int)
    requires
        made.is_terrain_of(land),
        0 <= k < 16,
    ensures
        made.chunks@[k].x_pos as int / (CHUNKS_PER_REGION as int) == made.region_x,
        made.chunks@[k].z_pos as int / (CHUNKS_PER_REGION as int) == made.region_y,
{
    lemma_place_in_region(land.cell.x as int, k % 4);
    lemma_place_in_region(land.cell.y as int, k / 4);
}

impl Chunk {
    /// The place of the chunk in the grid of its region: its coordinates
    /// modulo thirty-two, which are never negative.
    pub open spec fn slot(&self) -> (int, int) {
        (
            self.x_pos as int % (CHUNKS_PER_REGION as int),
            self.z_pos as int % (CHUNKS_PER_REGION as int),
        )
    }

    /// The place of the chunk in the grid of its region.
    pub fn region_slot(&self) -> (slot: (usize, usize))
        ensures
            slot.0 == self.slot().0,
            slot.1 == self.slot().1,
    {
        proof {
            lemma_mod_multiples_vanish(0x400_0000, self.x_pos as int, 32);
            lemma_mod_multiples_vanish(0x400_0000, self.z_pos as int, 32);
        }
        let x: i64 = (self.x_pos as i64 + 0x8000_0000) % 32;
        let z: i64 = (self.z_pos as i64 + 0x8000_0000) % 32;
        (x as usize, z as usize)
    }
}

/// No two chunks of a terrain unit take the same place in their region, so
/// the region holds all sixteen.
pub proof fn lemma_slots_distinct(made: LandChunks, land: LandView, j: int, k: int)
    requires
        made.is_terrain_of(land),
        0 <= j < k < 16,
    ensures
        made.chunks@[j].slot() != made.chunks@[k].slot(),
{
    let x = land.cell.x as int;
    let y = land.cell.y as int;
    let a = made.chunks@[j];
    let b = made.chunks@[k];
    assert(a.x_pos == 4 * x + j % 4 && b.x_pos == 4 * x + k % 4);
    assert(a.z_pos == 4 * y + j / 4 && b.z_pos == 4 * y + k / 4);
    lemma_place_in_region(x, j % 4);
    lemma_place_in_region(x, k % 4);
    lemma_place_in_region(y, j / 4);
    lemma_place_in_region(y, k / 4);
}

/// The place of the chunk `part` of a terrain unit along one axis of its
/// region: four times the place of the unit, and the part.
proof fn lemma_place_in_region(unit: int, part: int)
    requires
        0 <= part < 4,
    ensures
        (4 * unit + part) % 32 == 4 * (unit % 8) + part,
        (4 * unit + part) / 32 == unit / 8,
{
}

/// The character of the decimal digit `d`.
pub open spec fn digit_char(d: int) -> char {
    if d == 0 {
        '0'
    } else if d == 1 {
        '1'
    } else if d == 2 {
        '2'
    } else if d == 3 {
        '3'
    } else if d == 4 {
        '4'
    } else if d == 5 {
        '5'
    } else if d == 6 {
        '6'
    } else if d == 7 {
        '7'
    } else if d == 8 {
        '8'
    } else {
        '9'
    }
}

/// The decimal digits of a natural number, without leading zeros.
pub open spec fn digits(n: nat) -> Seq<char>
    decreases n,
{
    if n < 10 {
        seq![digit_char(n as int)]
    } else {
        digits(n / 10).push(digit_char((n % 10) as int))
    }
}

/// An integer in decimal, with a minus sign where it is negative.
pub open spec fn decimal(v: int) -> Seq<char> {
    if v < 0 {
        seq!['-'] + digits((-v) as nat)
    } else {
        digits(v as nat)
    }
}

/// The name of the file of the region `(x, y)`.
pub open spec fn region_file_name(x: int, y: int) -> Seq<char> {
    seq!['r', '.'] + decimal(x) + seq!['.'] + decimal(y) + seq!['.', 'm', 'c', 'a']
}

/// The text of one decimal digit.
fn digit_text(d: u64) -> (text: &'static str)
    requires
        d < 10,
    ensures
        text@ == seq![digit_char(d as int)],
{
    proof {
        reveal_strlit("0");
        reveal_strlit("1");
        reveal_strlit("2");
        reveal_strlit("3");
        reveal_strlit("4");
        reveal_strlit("5");
        reveal_strlit("6");
        reveal_strlit("7");
        reveal_strlit("8");
        reveal_strlit("9");
    }
    let text = if d == 0 {
        "0"
    } else if d == 1 {
        "1"
    } else if d == 2 {
        "2"
    } else if d == 3 {
        "3"
    } else if d == 4 {
        "4"
    } else if d == 5 {
        "5"
    } else if d == 6 {
        "6"
    } else if d == 7 {
        "7"
    } else if d == 8 {
        "8"
    } else {
        "9"
    };
    proof {
        assert(text@ =~= seq![digit_char(d as int)]);
    }
    text
}

/// Appends the decimal digits of `n` to `out`.
fn push_digits(out: &mut String, n: u64)
    ensures
        final(out)@ == old(out)@ + digits(n as nat),
    decreases n,
{
    if n >= 10 {
        push_digits(out, n / 10);
    }
    out.append(digit_text(n % 10));
    proof {
        assert(out@ =~= old(out)@ + digits(n as nat));
    }
}

/// Appends `v` in decimal to `out`.
fn push_decimal(out: &mut String, v: i32)
    ensures
        final(out)@ == old(out)@ + decimal(v as int),
{
    if v < 0 {
        proof {
            reveal_strlit("-");
        }
        out.append("-");
        let ghost signed = out@;
        push_digits(out, (-(v as i64)) as u64);
        proof {
            assert(signed =~= old(out)@ + seq!['-']);
            assert(out@ =~= old(out)@ + decimal(v as int));
        }
    } else {
        push_digits(out, v as u64);
    }
}

impl LandChunks {
    /// The name of the file of the region that takes these chunks: the letter
    /// `r`, the two region coordinates in decimal, and the ending `mca`, with a
    /// dot between each two of them.
    pub fn region_file_name(&self) -> (name: String)
        ensures
            name@ == region_file_name(self.region_x as int, self.region_y as int),
    {
        proof {
            reveal_strlit("r.");
            reveal_strlit(".");
            reveal_strlit(".mca");
        }
        let mut name = String::new();
        name.append("r.");
        push_decimal(&mut name, self.region_x);
        name.append(".");
        push_decimal(&mut name, self.region_y);
        name.append(".mca");
        proof {
            assert("r."@ =~= seq!['r', '.']);
            assert("."@ =~= seq!['.']);
            assert(".mca"@ =~= seq!['.', 'm', 'c', 'a']);
            assert(name@ =~= region_file_name(self.region_x as int, self.region_y as int));
        }
        name
    }
}

} // verus!
