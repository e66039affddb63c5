use vstd::prelude::*;
use vstd::arithmetic::power2::{pow2, lemma2_to64, lemma2_to64_rest, lemma_pow2_pos};
use vstd::bits::lemma_u64_shl_is_mul;

use crate::error::BoardError;
use crate::text::push_char;

verus! {

/// A square marker: a 64-bit value whose only set bit is the square's index.
pub type Position = u64;

/// `bit` is the marker of square `i`.
pub open spec fn is_marker_of(bit: u64, i: int) -> bool {
    0 <= i < 64 && bit as nat == pow2(i as nat)
}

/// `bit` has exactly one of its 64 bits set.
pub open spec fn is_marker(bit: u64) -> bool {
    exists|i: int| is_marker_of(bit, i)
}

/// The algebraic name of square `i`: file letter, then rank digit.
pub open spec fn square_name(i: int) -> Seq<char> {
    seq![(97 + i % 8) as char, (49 + i / 8) as char]
}

/// Bit index of each residue of a marker modulo 67; 64 where no marker lands.
const MOD67TABLE: [usize; 67] = [
    64, 0, 1, 39, 2, 15, 40, 23, 3, 12, 16, 59, 41, 19, 24, 54, 4, 64, 13, 10, 17, 62, 60, 28, 42,
    30, 20, 51, 25, 44, 55, 47, 5, 32, 64, 38, 14, 22, 11, 58, 18, 53, 63, 9, 61, 27, 29, 50, 43,
    46, 31, 37, 21, 57, 52, 8, 26, 49, 45, 36, 56, 7, 48, 35, 6, 34, 33,
];

const FILES: [char; 8] = ['a', 'b', 'c', 'd', 'e', 'f', 'g', 'h'];

const RANKS: [char; 8] = ['1', '2', '3', '4', '5', '6', '7', '8'];

/// The table sends the residue of the marker of square `i` back to `i`.
proof fn lemma_table_resolves(i: int)
    requires
        0 <= i < 64,
    ensures
        MOD67TABLE@[(pow2(i as nat) % 67) as int] == i,
{
    lemma2_to64();
    lemma2_to64_rest();
    assert(i == 0 || i == 1 || i == 2 || i == 3 || i == 4 || i == 5 || i == 6 || i == 7 || i == 8
        || i == 9 || i == 10 || i == 11 || i == 12 || i == 13 || i == 14 || i == 15 || i == 16
        || i == 17 || i == 18 || i == 19 || i == 20 || i == 21 || i == 22 || i == 23 || i == 24
        || i == 25 || i == 26 || i == 27 || i == 28 || i == 29 || i == 30 || i == 31 || i == 32
        || i == 33 || i == 34 || i == 35 || i == 36 || i == 37 || i == 38 || i == 39 || i == 40
        || i == 41 || i == 42 || i == 43 || i == 44 || i == 45 || i == 46 || i == 47 || i == 48
        || i == 49 || i == 50 || i == 51 || i == 52 || i == 53 || i == 54 || i == 55 || i == 56
        || i == 57 || i == 58 || i == 59 || i == 60 || i == 61 || i == 62 || i == 63);
}

/// The marker of square `i`, `1 << i`, is `2^i`.
pub proof fn lemma_shift_is_marker(i: u64)
    requires
        i < 64,
    ensures
        is_marker_of(1u64 << i, i as int),
{
    vstd::bits::lemma_u64_pow2_no_overflow(i as nat);
    lemma_u64_shl_is_mul(1, i);
}

/// Resolves a marker to its square index by one table lookup, with no scan.
pub fn bit_scan(bit: Position) -> (r: Result<usize, BoardError>)
    requires
        bit == 0 || is_marker(bit),
    ensures
        bit == 0 ==> r == Err::<usize, BoardError>(BoardError::InvalidMarker),
        forall|i: int| is_marker_of(bit, i) ==> r == Ok::<usize, BoardError>(i as usize),
{
    if bit == 0 {
        proof {
            assert forall|i: int| is_marker_of(bit, i) implies false by {
                lemma_pow2_pos(i as nat);
            }
        }
        return Err(BoardError::InvalidMarker);
    }
    let remainder = bit % 67;
    let index = MOD67TABLE[remainder as usize];
    proof {
        let i = choose|i: int| is_marker_of(bit, i);
        lemma_table_resolves(i);
        assert forall|j: int| is_marker_of(bit, j) implies j == i by {
            lemma_table_resolves(j);
        }
    }
    Ok(index)
}

/// The algebraic name of square `index`, such as "e4".
pub fn index_to_position(index: usize) -> (r: String)
    requires
        index < 64,
    ensures
        r@ == square_name(index as int),
{
    let mut r = String::new();
    push_char(&mut r, FILES[index % 8]);
    push_char(&mut r, RANKS[index / 8]);
    assert(FILES@ =~= seq!['a', 'b', 'c', 'd', 'e', 'f', 'g', 'h']);
    assert(RANKS@ =~= seq!['1', '2', '3', '4', '5', '6', '7', '8']);
    assert(r@ =~= square_name(index as int));
    r
}

/// The algebraic name of the square that `bit` marks; a zero marker is an error.
pub fn bit_to_position(bit: Position) -> (r: Result<String, BoardError>)
    requires
        bit == 0 || is_marker(bit),
    ensures
        bit == 0 ==> r == Err::<String, BoardError>(BoardError::InvalidMarker),
        forall|i: int| #[trigger] is_marker_of(bit, i) ==> (r matches Ok(s) && s@ == square_name(i)),
{
    match bit_scan(bit) {
        Err(e) => Err(e),
        Ok(index) => {
            proof {
                let i = choose|i: int| is_marker_of(bit, i);
                lemma_table_resolves(i);
            }
            Ok(index_to_position(index))
        }
    }
}

/// Every square name is a file letter `a`..`h` followed by a rank digit
/// `1`..`8`, and distinct squares have distinct names.
pub proof fn lemma_square_names(i: int, j: int)
    requires
        0 <= i < 64,
        0 <= j < 64,
    ensures
        square_name(i).len() == 2,
        'a' <= square_name(i)[0] <= 'h',
        '1' <= square_name(i)[1] <= '8',
        i != j ==> square_name(i) != square_name(j),
{
    if i != j && square_name(i) == square_name(j) {
        assert(square_name(i)[0] == square_name(j)[0]);
        assert(square_name(i)[1] == square_name(j)[1]);
    }
}

} // verus!
