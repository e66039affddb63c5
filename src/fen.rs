use vstd::prelude::*;
use vstd::arithmetic::power2::pow2;

use crate::piece::{Color, PieceType, piece_of_letter};
use crate::error::Field;
use crate::square::{Position, lemma_shift_is_marker};

verus! {

/// `s` cut at every `sep`: one more piece than there are separators.
pub open spec fn split(s: Seq<char>, sep: char) -> Seq<Seq<char>>
    decreases s.len(),
{
    if s.len() == 0 {
        seq![Seq::empty()]
    } else {
        let prev = split(s.drop_last(), sep);
        if s.last() == sep {
            prev.push(Seq::empty())
        } else {
            prev.update(prev.len() - 1, prev.last().push(s.last()))
        }
    }
}

/// Cutting always leaves at least one piece.
pub proof fn lemma_split_len(s: Seq<char>, sep: char)
    ensures
        split(s, sep).len() >= 1,
    decreases s.len(),
{
    if s.len() > 0 {
        lemma_split_len(s.drop_last(), sep);
    }
}

/// The side to move: `w` or `b`.
pub open spec fn decode_side(s: Seq<char>) -> Option<Color> {
    if s == seq!['w'] {
        Some(Color::White)
    } else if s == seq!['b'] {
        Some(Color::Black)
    } else {
        None
    }
}

/// The castling flag that a letter of `KQkq` stands for; 0 for any other.
pub open spec fn castling_flag(c: char) -> u8 {
    if c == 'K' { 1 }
    else if c == 'Q' { 2 }
    else if c == 'k' { 4 }
    else if c == 'q' { 8 }
    else { 0 }
}

/// The flags of a run of `KQkq` letters, each at most once.
pub open spec fn castling_scan(s: Seq<char>) -> Option<u8>
    decreases s.len(),
{
    if s.len() == 0 {
        Some(0u8)
    } else {
        match castling_scan(s.drop_last()) {
            Some(bits) => {
                let f = castling_flag(s.last());
                if f == 0 || bits & f != 0 { None } else { Some(bits | f) }
            },
            None => None,
        }
    }
}

/// The castling field: `-` for none, or a non-empty subset of `KQkq`.
pub open spec fn decode_castling(s: Seq<char>) -> Option<u8> {
    if s == seq!['-'] {
        Some(0u8)
    } else if s.len() == 0 {
        None
    } else {
        castling_scan(s)
    }
}

/// The index of the square that a two-character algebraic name denotes.
pub open spec fn square_of_name(s: Seq<char>) -> Option<int> {
    if s.len() == 2 && 'a' <= s[0] <= 'h' && '1' <= s[1] <= '8' {
        Some((s[1] as int - 49) * 8 + (s[0] as int - 97))
    } else {
        None
    }
}

/// The en-passant field: `-` for none, or the marker of a named square.
pub open spec fn decode_en_passant(s: Seq<char>) -> Option<Option<Position>> {
    if s == seq!['-'] {
        Some(None)
    } else {
        match square_of_name(s) {
            Some(i) => Some(Some(pow2(i as nat) as u64)),
            None => None,
        }
    }
}

/// The value of a run of decimal digits, as long as it stays at most `max`.
pub open spec fn counter_scan(s: Seq<char>, max: int) -> Option<int>
    decreases s.len(),
{
    if s.len() == 0 {
        Some(0)
    } else {
        match counter_scan(s.drop_last(), max) {
            Some(v) => {
                let c = s.last();
                let n = v * 10 + (c as int - 48);
                if '0' <= c <= '9' && n <= max { Some(n) } else { None }
            },
            None => None,
        }
    }
}

/// A counter field: a non-empty decimal number no greater than `max`.
pub open spec fn decode_counter(s: Seq<char>, max: int) -> Option<int> {
    if s.len() == 0 { None } else { counter_scan(s, max) }
}

/// What stands on a square: nothing, or a piece of a color and type.
pub type Content = Option<(Color, PieceType)>;

/// Where a scan of a piece-placement field stands: `rank` ranks finished
/// from the top, `file` squares of the current rank filled, and the board so far.
pub struct PlacementState {
    pub rank: int,
    pub file: int,
    pub board: Seq<Content>,
}

/// Sixty-four empty squares.
pub open spec fn empty_board() -> Seq<Content> {
    Seq::new(64, |i: int| None)
}

/// One character of a piece-placement field: `/` ends a full rank, a digit
/// `1`..`8` skips that many squares, a letter places a piece.
pub open spec fn placement_step(st: PlacementState, c: char) -> Option<PlacementState> {
    if c == '/' {
        if st.file == 8 && st.rank < 7 {
            Some(PlacementState { rank: st.rank + 1, file: 0, board: st.board })
        } else {
            None
        }
    } else if '1' <= c <= '8' {
        let n = c as int - 48;
        if st.file + n <= 8 {
            Some(PlacementState { rank: st.rank, file: st.file + n, board: st.board })
        } else {
            None
        }
    } else {
        match piece_of_letter(c) {
            Some(p) => if st.file < 8 {
                Some(
                    PlacementState {
                        rank: st.rank,
                        file: st.file + 1,
                        board: st.board.update((7 - st.rank) * 8 + st.file, Some(p)),
                    },
                )
            } else {
                None
            },
            None => None,
        }
    }
}

pub open spec fn placement_scan(s: Seq<char>) -> Option<PlacementState>
    decreases s.len(),
{
    if s.len() == 0 {
        Some(PlacementState { rank: 0, file: 0, board: empty_board() })
    } else {
        match placement_scan(s.drop_last()) {
            Some(st) => placement_step(st, s.last()),
            None => None,
        }
    }
}

/// The board that a piece-placement field describes: eight ranks of eight
/// squares each, rank 8 first, separated by `/`.
pub open spec fn decode_placement(s: Seq<char>) -> Option<Seq<Content>> {
    match placement_scan(s) {
        Some(st) => if st.rank == 7 && st.file == 8 { Some(st.board) } else { None },
        None => None,
    }
}

/// Once a scan of a prefix fails, the scan of the whole field fails.
pub proof fn lemma_placement_scan_fails_on(s: Seq<char>, i: int)
    requires
        0 <= i <= s.len(),
        placement_scan(s.take(i)) is None,
    ensures
        placement_scan(s) is None,
    decreases s.len() - i,
{
    if i == s.len() {
        assert(s.take(i) =~= s);
    } else {
        assert(s.take(i + 1).drop_last() =~= s.take(i));
        lemma_placement_scan_fails_on(s, i + 1);
    }
}

/// How many squares a character of a rank covers: a digit its value, any
/// other character one.
pub open spec fn square_count(c: char) -> int {
    if '1' <= c <= '8' { c as int - 48 } else { 1 }
}

/// How many squares a rank of a piece-placement field covers.
pub open spec fn rank_width(r: Seq<char>) -> int
    decreases r.len(),
{
    if r.len() == 0 { 0 } else { rank_width(r.drop_last()) + square_count(r.last()) }
}

/// A scan that stands at rank `rank`, file `file` has read `rank` full
/// ranks of eight squares, and `file` squares of the current one.
proof fn lemma_scan_ranks(s: Seq<char>)
    requires
        placement_scan(s) is Some,
    ensures
        ({
            let st = placement_scan(s)->Some_0;
            let parts = split(s, '/');
            &&& parts.len() == st.rank + 1
            &&& forall|k: int| 0 <= k < st.rank ==> rank_width(#[trigger] parts[k]) == 8
            &&& rank_width(parts.last()) == st.file
        }),
    decreases s.len(),
{
    if s.len() > 0 {
        let prev = s.drop_last();
        lemma_scan_ranks(prev);
        lemma_split_len(prev, '/');
        let c = s.last();
        let old_parts = split(prev, '/');
        if c != '/' {
            assert(old_parts.last().push(c).drop_last() =~= old_parts.last());
        }
    }
}

/// A description whose piece-placement field has a rank covering more or
/// fewer than eight squares is malformed.
pub proof fn lemma_uneven_rank_rejected(s: Seq<char>, k: int)
    requires
        0 <= k < split(split(s, ' ')[0], '/').len(),
        rank_width(split(split(s, ' ')[0], '/')[k]) != 8,
    ensures
        decode_fen(s) is Err,
{
    let p = split(s, ' ')[0];
    if placement_scan(p) is Some {
        lemma_scan_ranks(p);
    }
}

/// Everything a position description states.
pub struct PositionRecord {
    pub board: Seq<Content>,
    pub turn: Color,
    pub castling: u8,
    pub en_passant: Option<Position>,
    pub half_move_clock: int,
    pub full_move_number: int,
}

/// A six-field position description, decoded; or the first field that is
/// malformed, in the order of the fields.
pub open spec fn decode_fen(s: Seq<char>) -> Result<PositionRecord, Field> {
    let f = split(s, ' ');
    if f.len() != 6 {
        Err(Field::FieldCount)
    } else {
        match decode_placement(f[0]) {
            None => Err(Field::Placement),
            Some(board) => match decode_side(f[1]) {
                None => Err(Field::SideToMove),
                Some(turn) => match decode_castling(f[2]) {
                    None => Err(Field::Castling),
                    Some(castling) => match decode_en_passant(f[3]) {
                        None => Err(Field::EnPassant),
                        Some(en_passant) => match decode_counter(f[4], 255) {
                            None => Err(Field::HalfMoveClock),
                            Some(half_move_clock) => match decode_counter(f[5], 65535) {
                                None => Err(Field::FullMoveNumber),
                                Some(full_move_number) => Ok(
                                    PositionRecord {
                                        board,
                                        turn,
                                        castling,
                                        en_passant,
                                        half_move_clock,
                                        full_move_number,
                                    },
                                ),
                            },
                        },
                    },
                },
            },
        }
    }
}

/// The character sequences that a list of character vectors holds.
pub open spec fn views(v: Seq<Vec<char>>) -> Seq<Seq<char>> {
    v.map_values(|x: Vec<char>| x@)
}

/// Cuts `s` at every `sep`.
pub fn split_at_separator(s: &Vec<char>, sep: char) -> (r: Vec<Vec<char>>)
    ensures
        views(r@) == split(s@, sep),
{
    let mut fields: Vec<Vec<char>> = Vec::new();
    let mut cur: Vec<char> = Vec::new();
    let mut i: usize = 0;
    assert(s@.take(0) =~= Seq::<char>::empty());
    assert(views(fields@).push(cur@) =~= split(s@.take(0), sep));
    while i < s.len()
        invariant
            i <= s@.len(),
            views(fields@).push(cur@) == split(s@.take(i as int), sep),
        decreases s@.len() - i,
    {
        let c = s[i];
        let ghost prev = views(fields@).push(cur@);
        assert(s@.take(i + 1).drop_last() =~= s@.take(i as int));
        if c == sep {
            let done = cur;
            fields.push(done);
            cur = Vec::new();
            assert(views(fields@).push(cur@) =~= prev.push(Seq::empty()));
        } else {
            cur.push(c);
            assert(views(fields@).push(cur@) =~= prev.update(prev.len() - 1, prev.last().push(c)));
        }
        i = i + 1;
    }
    assert(s@.take(i as int) =~= s@);
    fields.push(cur);
    assert(views(fields@) =~= split(s@, sep));
    fields
}

/// Decodes the side to move.
pub fn parse_side(s: &Vec<char>) -> (r: Option<Color>)
    ensures
        r == decode_side(s@),
{
    if s.len() == 1 && s[0] == 'w' {
        assert(s@ =~= seq!['w']);
        Some(Color::White)
    } else if s.len() == 1 && s[0] == 'b' {
        assert(s@ =~= seq!['b']);
        Some(Color::Black)
    } else {
        None
    }
}

fn flag_of(c: char) -> (r: u8)
    ensures
        r == castling_flag(c),
{
    match c {
        'K' => 1,
        'Q' => 2,
        'k' => 4,
        'q' => 8,
        _ => 0,
    }
}

proof fn lemma_castling_scan_fails_on(s: Seq<char>, i: int)
    requires
        0 <= i <= s.len(),
        castling_scan(s.take(i)) is None,
    ensures
        castling_scan(s) is None,
    decreases s.len() - i,
{
    if i == s.len() {
        assert(s.take(i) =~= s);
    } else {
        assert(s.take(i + 1).drop_last() =~= s.take(i));
        lemma_castling_scan_fails_on(s, i + 1);
    }
}

/// Decodes the castling field into flag bits.
pub fn parse_castling(s: &Vec<char>) -> (r: Option<u8>)
    ensures
        r == decode_castling(s@),
        r matches Some(b) ==> b < 16,
{
    if s.len() == 1 && s[0] == '-' {
        assert(s@ =~= seq!['-']);
        return Some(0);
    }
    if s.len() == 0 {
        return None;
    }
    assert(s@ != seq!['-']);
    let mut bits: u8 = 0;
    let mut i: usize = 0;
    assert(s@.take(0) =~= Seq::<char>::empty());
    while i < s.len()
        invariant
            i <= s@.len(),
            bits < 16,
            s@ != seq!['-'],
            castling_scan(s@.take(i as int)) == Some(bits),
        decreases s@.len() - i,
    {
        let f = flag_of(s[i]);
        assert(s@.take(i + 1).drop_last() =~= s@.take(i as int));
        assert(s@.take(i + 1).last() == s@[i as int]);
        if f == 0 || bits & f != 0 {
            proof {
                lemma_castling_scan_fails_on(s@, i + 1);
            }
            return None;
        }
        assert(bits | f < 16) by (bit_vector)
            requires
                bits < 16,
                f <= 8,
        ;
        bits = bits | f;
        i = i + 1;
    }
    assert(s@.take(i as int) =~= s@);
    Some(bits)
}

/// Decodes the en-passant field into the marker of its square, if any.
pub fn parse_en_passant(s: &Vec<char>) -> (r: Option<Option<Position>>)
    ensures
        r == decode_en_passant(s@),
{
    if s.len() == 1 && s[0] == '-' {
        assert(s@ =~= seq!['-']);
        return Some(None);
    }
    if s.len() == 2 && 'a' <= s[0] && s[0] <= 'h' && '1' <= s[1] && s[1] <= '8' {
        let file = (s[0] as u32 - 'a' as u32) as u64;
        let rank = (s[1] as u32 - '1' as u32) as u64;
        let index = rank * 8 + file;
        proof {
            lemma_shift_is_marker(index);
        }
        Some(Some(1u64 << index))
    } else {
        None
    }
}

proof fn lemma_counter_scan_fails_on(s: Seq<char>, max: int, i: int)
    requires
        0 <= i <= s.len(),
        counter_scan(s.take(i), max) is None,
    ensures
        counter_scan(s, max) is None,
    decreases s.len() - i,
{
    if i == s.len() {
        assert(s.take(i) =~= s);
    } else {
        assert(s.take(i + 1).drop_last() =~= s.take(i));
        lemma_counter_scan_fails_on(s, max, i + 1);
    }
}

/// Decodes a decimal counter that may not exceed `max`.
pub fn parse_counter(s: &Vec<char>, max: u32) -> (r: Option<u32>)
    requires
        max <= 65535,
    ensures
        r matches Some(v) ==> decode_counter(s@, max as int) == Some(v as int) && v <= max,
        r is None ==> decode_counter(s@, max as int) is None,
{
    if s.len() == 0 {
        return None;
    }
    let mut value: u32 = 0;
    let mut i: usize = 0;
    assert(s@.take(0) =~= Seq::<char>::empty());
    while i < s.len()
        invariant
            i <= s@.len(),
            max <= 65535,
            value <= max,
            counter_scan(s@.take(i as int), max as int) == Some(value as int),
        decreases s@.len() - i,
    {
        let c = s[i];
        assert(s@.take(i + 1).drop_last() =~= s@.take(i as int));
        if c < '0' || c > '9' {
            proof {
                lemma_counter_scan_fails_on(s@, max as int, i + 1);
            }
            return None;
        }
        let n = value * 10 + (c as u32 - '0' as u32);
        if n > max {
            proof {
                lemma_counter_scan_fails_on(s@, max as int, i + 1);
            }
            return None;
        }
        value = n;
        i = i + 1;
    }
    assert(s@.take(i as int) =~= s@);
    Some(value)
}

} // verus!
