//! The tags and names that the walker looks for.
use vstd::prelude::*;

verus! {

/// The tag of the leading record of an archive.
pub const TES4: [u8; 4] = ['T' as u8, 'E' as u8, 'S' as u8, '4' as u8];

/// The tag of every group.
pub const GRUP: [u8; 4] = ['G' as u8, 'R' as u8, 'U' as u8, 'P' as u8];

/// The tag of a worldspace record, and the label of the group of worldspaces.
pub const WRLD: [u8; 4] = ['W' as u8, 'R' as u8, 'L' as u8, 'D' as u8];

/// The tag of a heightfield record.
pub const LAND: [u8; 4] = ['L' as u8, 'A' as u8, 'N' as u8, 'D' as u8];

/// The tag of the coordinate field of a terrain unit.
pub const XCLC: [u8; 4] = ['X' as u8, 'C' as u8, 'L' as u8, 'C' as u8];

/// The tag of the flags field of a terrain unit.
pub const DATA: [u8; 4] = ['D' as u8, 'A' as u8, 'T' as u8, 'A' as u8];

/// The tag of the water height field of a terrain unit.
pub const XCLW: [u8; 4] = ['X' as u8, 'C' as u8, 'L' as u8, 'W' as u8];

/// The tag of the heightfield field.
pub const VHGT: [u8; 4] = ['V' as u8, 'H' as u8, 'G' as u8, 'T' as u8];

/// The editor identifier that the worldspace record must carry, with its
/// closing zero.
pub const WORLD_NAME: [u8; 8] = [
    'T' as u8,
    'a' as u8,
    'm' as u8,
    'r' as u8,
    'i' as u8,
    'e' as u8,
    'l' as u8,
    0,
];

/// Whether two tags hold the same bytes.
pub fn tag_eq(a: &[u8; 4], b: &[u8; 4]) -> (r: bool)
    ensures
        r == (a@ == b@),
{
    let r = a[0] == b[0] && a[1] == b[1] && a[2] == b[2] && a[3] == b[3];
    proof {
        if r {
            assert(a@ =~= b@);
        }
    }
    r
}

} // verus!
