use vstd::prelude::*;

use crate::castling::CastlingRights;
use crate::error::{BoardError, Field};
use crate::fen::{
    Content, PlacementState, PositionRecord, decode_fen, decode_placement, empty_board,
    lemma_placement_scan_fails_on, placement_scan, split, split_at_separator, views,
    parse_castling, parse_counter, parse_en_passant, parse_side,
};
use crate::piece::{Color, Piece, letter_to_piece, piece_text};
use vstd::string::{StrSliceExecFns, StringExecFns};
use crate::text::push_char;
use crate::square::{Position, index_to_position, is_marker, is_marker_of, lemma_shift_is_marker, square_name};

verus! {

/// What a square holds: nothing, or the index of a piece in the piece list.
#[derive(Clone, Copy, Debug, PartialEq, Eq, Structural)]
pub enum Square {
    Empty,
    Occupied(usize),
}

/// What square `i` holds, read through the piece list.
pub open spec fn content_of(pieces: Seq<Piece>, squares: Seq<Square>, i: int) -> Content {
    match squares[i] {
        Square::Empty => None,
        Square::Occupied(k) => Some((pieces[k as int].color, pieces[k as int].piece_type)),
    }
}

pub open spec fn board_of(pieces: Seq<Piece>, squares: Seq<Square>) -> Seq<Content> {
    Seq::new(64, |i: int| content_of(pieces, squares, i))
}

/// The piece list and the square list agree: 64 squares; each occupied square
/// names a piece that stands on it; each piece is named by some square.
pub open spec fn board_wf(pieces: Seq<Piece>, squares: Seq<Square>) -> bool {
    &&& squares.len() == 64
    &&& forall|i: int|
        0 <= i < 64 ==> match #[trigger] squares[i] {
            Square::Occupied(k) => k < pieces.len() && is_marker_of(pieces[k as int].position, i),
            Square::Empty => true,
        }
    &&& forall|k: int| 0 <= k < pieces.len() ==> #[trigger] names_piece(squares, k)
}

/// Some square names piece `k`.
pub open spec fn names_piece(squares: Seq<Square>, k: int) -> bool {
    exists|i: int| 0 <= i < 64 && #[trigger] squares[i] == Square::Occupied(k as usize)
}

/// A chess position.
pub struct Game {
    pub pieces: Vec<Piece>,
    pub squares: Vec<Square>,
    pub turn: Color,
    pub castling_rights: CastlingRights,
    pub en_passant: Option<Position>,
    pub half_move_clock: u8,
    pub full_move_number: u16,
}

impl Game {
    pub open spec fn wf(&self) -> bool {
        &&& board_wf(self.pieces@, self.squares@)
        &&& self.castling_rights.wf()
        &&& self.en_passant matches Some(m) ==> is_marker(m)
    }

    /// What the position states, with the board read square by square.
    pub open spec fn record(&self) -> PositionRecord {
        PositionRecord {
            board: board_of(self.pieces@, self.squares@),
            turn: self.turn,
            castling: self.castling_rights@,
            en_passant: self.en_passant,
            half_move_clock: self.half_move_clock as int,
            full_move_number: self.full_move_number as int,
        }
    }
}

/// Squares not yet reached by a scan that has finished `rank` ranks from the
/// top and `file` squares of the next one.
pub open spec fn not_yet_placed(rank: int, file: int, j: int) -> bool {
    j / 8 < 7 - rank || (j / 8 == 7 - rank && j % 8 >= file)
}

/// Builds the piece list and the square list that a piece-placement field describes.
fn place_pieces(s: &Vec<char>) -> (r: Option<(Vec<Piece>, Vec<Square>)>)
    ensures
        match r {
            Some((pieces, squares)) => board_wf(pieces@, squares@) && decode_placement(s@) == Some(
                board_of(pieces@, squares@),
            ),
            None => decode_placement(s@) is None,
        },
{
    let mut pieces: Vec<Piece> = Vec::new();
    let mut squares: Vec<Square> = Vec::new();
    let mut n: usize = 0;
    while n < 64
        invariant
            n <= 64,
            squares@.len() == n,
            forall|j: int| 0 <= j < n ==> squares@[j] == Square::Empty,
        decreases 64 - n,
    {
        squares.push(Square::Empty);
        n = n + 1;
    }
    let ghost locs: Seq<int> = Seq::empty();
    let mut rank: usize = 0;
    let mut file: usize = 0;
    let mut i: usize = 0;
    assert(s@.take(0) =~= Seq::<char>::empty());
    assert(board_of(pieces@, squares@) =~= empty_board());
    while i < s.len()
        invariant
            i <= s@.len(),
            rank <= 7,
            file <= 8,
            squares@.len() == 64,
            locs.len() == pieces@.len(),
            placement_scan(s@.take(i as int)) == Some(
                PlacementState {
                    rank: rank as int,
                    file: file as int,
                    board: board_of(pieces@, squares@),
                },
            ),
            forall|j: int|
                0 <= j < 64 ==> match #[trigger] squares@[j] {
                    Square::Occupied(k) => k < pieces@.len() && is_marker_of(
                        pieces@[k as int].position,
                        j,
                    ),
                    Square::Empty => true,
                },
            forall|k: int|
                0 <= k < pieces@.len() ==> 0 <= #[trigger] locs[k] < 64 && squares@[locs[k]]
                    == Square::Occupied(k as usize),
            forall|j: int|
                0 <= j < 64 && not_yet_placed(rank as int, file as int, j) ==> #[trigger] squares@[j]
                    == Square::Empty,
        decreases s@.len() - i,
    {
        let c = s[i];
        let ghost t = s@.take(i + 1);
        assert(t.drop_last() =~= s@.take(i as int));
        assert(t.last() == c);
        if c == '/' {
            if file != 8 || rank >= 7 {
                proof {
                    lemma_placement_scan_fails_on(s@, i + 1);
                }
                return None;
            }
            rank = rank + 1;
            file = 0;
        } else if '1' <= c && c <= '8' {
            let skip = (c as u32 - '0' as u32) as usize;
            if file + skip > 8 {
                proof {
                    lemma_placement_scan_fails_on(s@, i + 1);
                }
                return None;
            }
            file = file + skip;
        } else {
            match letter_to_piece(c) {
                None => {
                    proof {
                        lemma_placement_scan_fails_on(s@, i + 1);
                    }
                    return None;
                },
                Some((color, piece_type)) => {
                    if file >= 8 {
                        proof {
                            lemma_placement_scan_fails_on(s@, i + 1);
                        }
                        return None;
                    }
                    let index = (7 - rank) * 8 + file;
                    proof {
                        lemma_shift_is_marker(index as u64);
                    }
                    let ghost old_board = board_of(pieces@, squares@);
                    let ghost old_squares = squares@;
                    let k = pieces.len();
                    pieces.push(Piece { position: 1u64 << (index as u64), color, piece_type });
                    squares.set(index, Square::Occupied(k));
                    proof {
                        locs = locs.push(index as int);
                        assert(old_squares[index as int] == Square::Empty);
                        assert(board_of(pieces@, squares@) =~= old_board.update(
                            index as int,
                            Some((color, piece_type)),
                        ));
                    }
                    file = file + 1;
                }
            }
        }
        i = i + 1;
    }
    assert(s@.take(i as int) =~= s@);
    if rank != 7 || file != 8 {
        return None;
    }
    proof {
        assert forall|k: int| 0 <= k < pieces@.len() implies #[trigger] names_piece(squares@, k) by {
            assert(squares@[locs[k]] == Square::Occupied(k as usize));
        }
    }
    Some((pieces, squares))
}

/// The characters of `s`, in order.
fn chars_of(s: &str) -> (r: Vec<char>)
    ensures
        r@ == s@,
{
    let n = s.unicode_len();
    let mut r: Vec<char> = Vec::new();
    let mut i: usize = 0;
    while i < n
        invariant
            n == s@.len(),
            i <= n,
            r@ == s@.take(i as int),
        decreases n - i,
    {
        r.push(s.get_char(i));
        i = i + 1;
        assert(r@ =~= s@.take(i as int));
    }
    assert(s@.take(i as int) =~= s@);
    r
}

impl Game {
    /// Decodes a six-field position description: piece placement, side to
    /// move, castling rights, en-passant square, half-move clock and
    /// full-move number, separated by single spaces. A malformed description
    /// yields the first malformed field and no position.
    pub fn from_fen(fen: &str) -> (r: Result<Game, BoardError>)
        ensures
            match (r, decode_fen(fen@)) {
                (Ok(g), Ok(rec)) => g.wf() && g.record() == rec,
                (Err(e), Err(f)) => e == BoardError::MalformedPosition(f),
                _ => false,
            },
    {
        let chars = chars_of(fen);
        let fields = split_at_separator(&chars, ' ');
        let ghost f = split(fen@, ' ');
        if fields.len() != 6 {
            return Err(BoardError::MalformedPosition(Field::FieldCount));
        }
        assert(fields@[0]@ == f[0] && fields@[1]@ == f[1] && fields@[2]@ == f[2]);
        assert(fields@[3]@ == f[3] && fields@[4]@ == f[4] && fields@[5]@ == f[5]);
        let (pieces, squares) = match place_pieces(&fields[0]) {
            Some(p) => p,
            None => return Err(BoardError::MalformedPosition(Field::Placement)),
        };
        let turn = match parse_side(&fields[1]) {
            Some(t) => t,
            None => return Err(BoardError::MalformedPosition(Field::SideToMove)),
        };
        let bits = match parse_castling(&fields[2]) {
            Some(b) => b,
            None => return Err(BoardError::MalformedPosition(Field::Castling)),
        };
        let en_passant = match parse_en_passant(&fields[3]) {
            Some(e) => e,
            None => return Err(BoardError::MalformedPosition(Field::EnPassant)),
        };
        let half_move_clock = match parse_counter(&fields[4], 255) {
            Some(v) => v as u8,
            None => return Err(BoardError::MalformedPosition(Field::HalfMoveClock)),
        };
        let full_move_number = match parse_counter(&fields[5], 65535) {
            Some(v) => v as u16,
            None => return Err(BoardError::MalformedPosition(Field::FullMoveNumber)),
        };
        let game = Game {
            pieces,
            squares,
            turn,
            castling_rights: CastlingRights { bits },
            en_passant,
            half_move_clock,
            full_move_number,
        };
        proof {
            if let Some(m) = en_passant {
                let i = (f[3][1] as int - 49) * 8 + (f[3][0] as int - 97);
                lemma_shift_is_marker(i as u64);
                assert(is_marker_of(m, i));
            }
        }
        Ok(game)
    }
}

/// How square `i` reads in a diagram: its piece's letter and a space, or,
/// when empty, its own name.
pub open spec fn square_text(board: Seq<Content>, i: int) -> Seq<char> {
    match board[i] {
        Some((color, piece_type)) => piece_text(color, piece_type),
        None => square_name(i),
    }
}

/// The text of the first `n` squares of rank `row` (0 is rank 1).
pub open spec fn rank_text(board: Seq<Content>, row: int, n: int) -> Seq<char>
    decreases n,
{
    if n <= 0 {
        Seq::empty()
    } else {
        rank_text(board, row, n - 1) + square_text(board, row * 8 + n - 1)
    }
}

/// The first `k` lines of a diagram, each one rank and a newline, from rank 8 down.
pub open spec fn diagram_lines(board: Seq<Content>, k: int) -> Seq<char>
    decreases k,
{
    if k <= 0 {
        Seq::empty()
    } else {
        diagram_lines(board, k - 1) + rank_text(board, 8 - k, 8) + seq!['\n']
    }
}

/// The diagram of a board: eight lines, rank 8 at the top, rank 1 at the bottom.
pub open spec fn diagram(board: Seq<Content>) -> Seq<char> {
    diagram_lines(board, 8)
}

impl Game {
    /// The board as a diagram of eight lines.
    pub fn to_string(&self) -> (r: String)
        requires
            self.wf(),
        ensures
            r@ == diagram(self.record().board),
    {
        let ghost board = self.record().board;
        let mut out = String::new();
        let mut k: usize = 0;
        while k < 8
            invariant
                self.wf(),
                board == self.record().board,
                k <= 8,
                out@ == diagram_lines(board, k as int),
            decreases 8 - k,
        {
            let row = 7 - k;
            let mut line = String::new();
            let mut f: usize = 0;
            while f < 8
                invariant
                    self.wf(),
                    board == self.record().board,
                    row < 8,
                    f <= 8,
                    line@ == rank_text(board, row as int, f as int),
                decreases 8 - f,
            {
                let index = row * 8 + f;
                let text = match self.squares[index] {
                    Square::Empty => index_to_position(index),
                    Square::Occupied(p) => self.pieces[p].to_string(),
                };
                assert(text@ == square_text(board, index as int));
                line.append(text.as_str());
                f = f + 1;
                assert(line@ =~= rank_text(board, row as int, f as int));
            }
            push_char(&mut line, '\n');
            out.append(line.as_str());
            k = k + 1;
            assert(out@ =~= diagram_lines(board, k as int));
        }
        out
    }
}

/// Decoding then drawing depends on the description alone: two games decoded
/// from the same description hold the same record and draw the same diagram.
pub proof fn lemma_decode_then_draw_is_deterministic(s: Seq<char>, g1: Game, g2: Game)
    requires
        decode_fen(s) == Ok::<PositionRecord, Field>(g1.record()),
        decode_fen(s) == Ok::<PositionRecord, Field>(g2.record()),
    ensures
        g1.record() == g2.record(),
        diagram(g1.record().board) == diagram(g2.record().board),
{
}

} // verus!
