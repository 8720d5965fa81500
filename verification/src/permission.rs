//! Decoding of permission bits into their symbolic `rwx` form.

use vstd::prelude::*;
use vstd::string::*;

verus! {

/// The character shown for one permission bit: `letter` when the bit `mask`
/// is set in `bits`, a dash otherwise.
pub open spec fn flag_char(bits: u32, mask: u32, letter: char) -> char {
    if bits & mask == mask {
        letter
    } else {
        '-'
    }
}

/// The triad of one scope: read, write, execute, left to right.
pub open spec fn triad(bits: u32) -> Seq<char> {
    seq![flag_char(bits, 4, 'r'), flag_char(bits, 2, 'w'), flag_char(bits, 1, 'x')]
}

/// The nine permission characters of a raw mode: owner, group, other.
pub open spec fn mode_triads(mode: u32) -> Seq<char> {
    triad((mode >> 6) & 0o7) + triad((mode >> 3) & 0o7) + triad(mode & 0o7)
}

/// The truth table of the triad: each of the eight values of three bits with
/// its text, and any number with the text of its lowest three bits.
pub proof fn lemma_triad_table(bits: u32)
    ensures
        triad(0) == seq!['-', '-', '-'],
        triad(1) == seq!['-', '-', 'x'],
        triad(2) == seq!['-', 'w', '-'],
        triad(3) == seq!['-', 'w', 'x'],
        triad(4) == seq!['r', '-', '-'],
        triad(5) == seq!['r', '-', 'x'],
        triad(6) == seq!['r', 'w', '-'],
        triad(7) == seq!['r', 'w', 'x'],
        triad(bits) == triad(bits & 7),
        bits & 7 <= 7,
{
    assert(0u32 & 4 == 0 && 0u32 & 2 == 0 && 0u32 & 1 == 0) by (bit_vector);
    assert(1u32 & 4 == 0 && 1u32 & 2 == 0 && 1u32 & 1 == 1) by (bit_vector);
    assert(2u32 & 4 == 0 && 2u32 & 2 == 2 && 2u32 & 1 == 0) by (bit_vector);
    assert(3u32 & 4 == 0 && 3u32 & 2 == 2 && 3u32 & 1 == 1) by (bit_vector);
    assert(4u32 & 4 == 4 && 4u32 & 2 == 0 && 4u32 & 1 == 0) by (bit_vector);
    assert(5u32 & 4 == 4 && 5u32 & 2 == 0 && 5u32 & 1 == 1) by (bit_vector);
    assert(6u32 & 4 == 4 && 6u32 & 2 == 2 && 6u32 & 1 == 0) by (bit_vector);
    assert(7u32 & 4 == 4 && 7u32 & 2 == 2 && 7u32 & 1 == 1) by (bit_vector);
    assert((bits & 7) & 4 == bits & 4 && (bits & 7) & 2 == bits & 2 && (bits & 7) & 1 == bits & 1
        && bits & 7 <= 7) by (bit_vector);
}

/// Turns the three permission bits of one scope into their triad.
/// Bits above the lowest three are ignored.
pub fn turn_permission_num_to_str(num: u32) -> (result: String)
    ensures
        result@ == triad(num),
{
    let mut result = String::new();
    proof {
        reveal_strlit("r");
        reveal_strlit("w");
        reveal_strlit("x");
        reveal_strlit("-");
    }
    if num & 4 == 4 {
        result.append("r");
    } else {
        result.append("-");
    }
    if num & 2 == 2 {
        result.append("w");
    } else {
        result.append("-");
    }
    if num & 1 == 1 {
        result.append("x");
    } else {
        result.append("-");
    }
    assert(result@ =~= triad(num));
    result
}

/// The nine permission characters of `mode`.
pub fn permission_triads(mode: u32) -> (result: String)
    ensures
        result@ == mode_triads(mode),
{
    let mut result = turn_permission_num_to_str((mode >> 6) & 0o7);
    let group = turn_permission_num_to_str((mode >> 3) & 0o7);
    let other = turn_permission_num_to_str(mode & 0o7);
    result.append(group.as_str());
    result.append(other.as_str());
    result
}

} // verus!
