use vstd::prelude::*;

use crate::square::Position;
use crate::text::push_char;

verus! {

#[derive(Clone, Copy, Debug, PartialEq, Eq, Structural)]
pub enum Color {
    White,
    Black,
}

#[derive(Clone, Copy, Debug, PartialEq, Eq, Structural)]
pub enum PieceType {
    Pawn,
    Knight,
    Bishop,
    Rook,
    Queen,
    King,
}

/// A piece of a position, standing on the square that `position` marks.
#[derive(Clone, Copy, Debug, PartialEq, Eq, Structural)]
pub struct Piece {
    pub position: Position,
    pub color: Color,
    pub piece_type: PieceType,
}

/// The letter of a piece: `p n b r q k` by type, upper case for White.
pub open spec fn piece_letter(color: Color, piece_type: PieceType) -> char {
    let lower = match piece_type {
        PieceType::Pawn => 'p',
        PieceType::Knight => 'n',
        PieceType::Bishop => 'b',
        PieceType::Rook => 'r',
        PieceType::Queen => 'q',
        PieceType::King => 'k',
    };
    if color == Color::White {
        (lower as int - 32) as char
    } else {
        lower
    }
}

/// The color and type that a letter of a piece-placement field stands for.
pub open spec fn piece_of_letter(c: char) -> Option<(Color, PieceType)> {
    if c == 'P' { Some((Color::White, PieceType::Pawn)) }
    else if c == 'N' { Some((Color::White, PieceType::Knight)) }
    else if c == 'B' { Some((Color::White, PieceType::Bishop)) }
    else if c == 'R' { Some((Color::White, PieceType::Rook)) }
    else if c == 'Q' { Some((Color::White, PieceType::Queen)) }
    else if c == 'K' { Some((Color::White, PieceType::King)) }
    else if c == 'p' { Some((Color::Black, PieceType::Pawn)) }
    else if c == 'n' { Some((Color::Black, PieceType::Knight)) }
    else if c == 'b' { Some((Color::Black, PieceType::Bishop)) }
    else if c == 'r' { Some((Color::Black, PieceType::Rook)) }
    else if c == 'q' { Some((Color::Black, PieceType::Queen)) }
    else if c == 'k' { Some((Color::Black, PieceType::King)) }
    else { None }
}

/// The two characters that stand for a piece in a diagram: its letter and a space.
pub open spec fn piece_text(color: Color, piece_type: PieceType) -> Seq<char> {
    seq![piece_letter(color, piece_type), ' ']
}

/// The color and type of the piece that a letter stands for, if any.
pub fn letter_to_piece(c: char) -> (r: Option<(Color, PieceType)>)
    ensures
        r == piece_of_letter(c),
{
    match c {
        'P' => Some((Color::White, PieceType::Pawn)),
        'N' => Some((Color::White, PieceType::Knight)),
        'B' => Some((Color::White, PieceType::Bishop)),
        'R' => Some((Color::White, PieceType::Rook)),
        'Q' => Some((Color::White, PieceType::Queen)),
        'K' => Some((Color::White, PieceType::King)),
        'p' => Some((Color::Black, PieceType::Pawn)),
        'n' => Some((Color::Black, PieceType::Knight)),
        'b' => Some((Color::Black, PieceType::Bishop)),
        'r' => Some((Color::Black, PieceType::Rook)),
        'q' => Some((Color::Black, PieceType::Queen)),
        'k' => Some((Color::Black, PieceType::King)),
        _ => None,
    }
}

impl Piece {
    /// The piece as two characters: its letter, then a space.
    pub fn to_string(&self) -> (r: String)
        ensures
            r@ == piece_text(self.color, self.piece_type),
    {
        let white = match self.color {
            Color::White => true,
            Color::Black => false,
        };
        let letter = match self.piece_type {
            PieceType::Pawn => if white { 'P' } else { 'p' },
            PieceType::Knight => if white { 'N' } else { 'n' },
            PieceType::Bishop => if white { 'B' } else { 'b' },
            PieceType::Rook => if white { 'R' } else { 'r' },
            PieceType::Queen => if white { 'Q' } else { 'q' },
            PieceType::King => if white { 'K' } else { 'k' },
        };
        let mut r = String::new();
        push_char(&mut r, letter);
        push_char(&mut r, ' ');
        assert(r@ =~= piece_text(self.color, self.piece_type));
        r
    }
}

} // verus!
