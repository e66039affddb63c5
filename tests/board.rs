use chessboard::castling::{
    CastlingRights, BLACK_KING_SIDE, BLACK_QUEEN_SIDE, WHITE_KING_SIDE, WHITE_QUEEN_SIDE,
};
use chessboard::error::{BoardError, Field};
use chessboard::piece::{Color, Piece, PieceType};
use chessboard::position::{Game, Square};
use chessboard::square::{bit_scan, bit_to_position, index_to_position};

const START: &str = "rnbqkbnr/pppppppp/8/8/8/8/PPPPPPPP/RNBQKBNR w KQkq - 0 1";

fn malformed(fen: &str) -> Option<Field> {
    match Game::from_fen(fen) {
        Err(BoardError::MalformedPosition(f)) => Some(f),
        _ => None,
    }
}

fn square_of(piece: &Piece) -> String {
    bit_to_position(piece.position).unwrap()
}

#[test]
fn bit_scan_resolves_every_marker() {
    for i in 0..64u64 {
        assert_eq!(bit_scan(1u64 << i), Ok(i as usize));
    }
}

#[test]
fn bit_scan_rejects_zero() {
    assert_eq!(bit_scan(0), Err(BoardError::InvalidMarker));
}

#[test]
fn bit_to_position_names_square() {
    assert_eq!(bit_to_position(1u64 << 28), Ok("e4".to_string()));
    assert_eq!(bit_to_position(1), Ok("a1".to_string()));
    assert_eq!(bit_to_position(1u64 << 63), Ok("h8".to_string()));
    assert_eq!(bit_to_position(0), Err(BoardError::InvalidMarker));
}

#[test]
fn index_to_position_corners() {
    assert_eq!(index_to_position(0), "a1");
    assert_eq!(index_to_position(63), "h8");
    assert_eq!(index_to_position(8), "a2");
    assert_eq!(index_to_position(7), "h1");
    assert_eq!(index_to_position(36), "e5");
}

#[test]
fn square_names_are_distinct_and_well_formed() {
    let mut seen: Vec<String> = Vec::new();
    for i in 0..64usize {
        let name = index_to_position(i);
        let chars: Vec<char> = name.chars().collect();
        assert_eq!(chars.len(), 2);
        assert!(('a'..='h').contains(&chars[0]));
        assert!(('1'..='8').contains(&chars[1]));
        assert!(!seen.contains(&name));
        seen.push(name);
    }
    assert_eq!(seen.len(), 64);
}

#[test]
fn piece_to_string_sets_case_by_color() {
    let white_knight = Piece { position: 2, color: Color::White, piece_type: PieceType::Knight };
    let black_queen = Piece { position: 1u64 << 59, color: Color::Black, piece_type: PieceType::Queen };
    let white_pawn = Piece { position: 1u64 << 8, color: Color::White, piece_type: PieceType::Pawn };
    let black_king = Piece { position: 1u64 << 60, color: Color::Black, piece_type: PieceType::King };
    assert_eq!(white_knight.to_string(), "N ");
    assert_eq!(black_queen.to_string(), "q ");
    assert_eq!(white_pawn.to_string(), "P ");
    assert_eq!(black_king.to_string(), "k ");
}

#[test]
fn initial_position_decodes() {
    let game = Game::from_fen(START).unwrap();
    assert_eq!(game.pieces.len(), 32);
    let white = game.pieces.iter().filter(|p| p.color == Color::White).count();
    let black = game.pieces.iter().filter(|p| p.color == Color::Black).count();
    assert_eq!(white, 16);
    assert_eq!(black, 16);
    for color in [Color::White, Color::Black] {
        let pawns = game
            .pieces
            .iter()
            .filter(|p| p.color == color && p.piece_type == PieceType::Pawn)
            .count();
        assert_eq!(pawns, 8);
    }
    let kings: Vec<&Piece> =
        game.pieces.iter().filter(|p| p.piece_type == PieceType::King).collect();
    assert_eq!(kings.len(), 2);
    for king in kings {
        match king.color {
            Color::White => assert_eq!(square_of(king), "e1"),
            Color::Black => assert_eq!(square_of(king), "e8"),
        }
    }
    assert_eq!(game.castling_rights, CastlingRights::all());
    assert_eq!(game.en_passant, None);
    assert_eq!(game.half_move_clock, 0);
    assert_eq!(game.full_move_number, 1);
    assert_eq!(game.turn, Color::White);
}

#[test]
fn initial_position_squares_point_back() {
    let game = Game::from_fen(START).unwrap();
    assert_eq!(game.squares.len(), 64);
    for (i, square) in game.squares.iter().enumerate() {
        match square {
            Square::Occupied(k) => assert_eq!(bit_scan(game.pieces[*k].position), Ok(i)),
            Square::Empty => assert!((16..48).contains(&i)),
        }
    }
}

#[test]
fn initial_diagram() {
    let game = Game::from_fen(START).unwrap();
    let text = game.to_string();
    let expected = "r n b q k b n r \n\
                    p p p p p p p p \n\
                    a6b6c6d6e6f6g6h6\n\
                    a5b5c5d5e5f5g5h5\n\
                    a4b4c4d4e4f4g4h4\n\
                    a3b3c3d3e3f3g3h3\n\
                    P P P P P P P P \n\
                    R N B Q K B N R \n";
    assert_eq!(text, expected);
    let lines: Vec<&str> = text.lines().collect();
    assert_eq!(lines.len(), 8);
    assert_eq!(lines[0].split_whitespace().count(), 8);
    assert_eq!(lines[7].split_whitespace().count(), 8);
    assert!(lines[0].starts_with("r n b q k"));
    assert!(lines[7].starts_with("R N B Q K"));
}

#[test]
fn diagram_of_sparse_position() {
    let game = Game::from_fen("4k3/8/8/8/3P4/8/8/4K3 b - d3 0 1").unwrap();
    let expected = "a8b8c8d8k f8g8h8\n\
                    a7b7c7d7e7f7g7h7\n\
                    a6b6c6d6e6f6g6h6\n\
                    a5b5c5d5e5f5g5h5\n\
                    a4b4c4P e4f4g4h4\n\
                    a3b3c3d3e3f3g3h3\n\
                    a2b2c2d2e2f2g2h2\n\
                    a1b1c1d1K f1g1h1\n";
    assert_eq!(game.to_string(), expected);
    assert_eq!(game.turn, Color::Black);
    assert_eq!(game.castling_rights, CastlingRights::empty());
    assert_eq!(game.en_passant, Some(1u64 << 19));
}

#[test]
fn uneven_rank_is_malformed() {
    let short = "rnbqkbnr/ppppppp/8/8/8/8/PPPPPPPP/RNBQKBNR w KQkq - 0 1";
    let long = "rnbqkbnr/pppppppp/8/8/8/8/PPPPPPPPP/RNBQKBNR w KQkq - 0 1";
    let digits = "rnbqkbnr/pppppppp/54/8/8/8/PPPPPPPP/RNBQKBNR w KQkq - 0 1";
    assert_eq!(malformed(short), Some(Field::Placement));
    assert_eq!(malformed(long), Some(Field::Placement));
    assert_eq!(malformed(digits), Some(Field::Placement));
}

#[test]
fn placement_errors() {
    assert_eq!(malformed("rnbqkbnr/pppppppp/8/8/8/8/PPPPPPPP w KQkq - 0 1"), Some(Field::Placement));
    assert_eq!(
        malformed("rnbqkbnr/pppppppp/8/8/8/8/PPPPPPPP/RNBQKBNR/8 w KQkq - 0 1"),
        Some(Field::Placement)
    );
    assert_eq!(malformed("rnbqkbnx/pppppppp/8/8/8/8/PPPPPPPP/RNBQKBNR w KQkq - 0 1"), Some(Field::Placement));
    assert_eq!(malformed("rnbqkbnr/pppppppp/9/8/8/8/PPPPPPPP/RNBQKBNR w KQkq - 0 1"), Some(Field::Placement));
    assert_eq!(malformed("rnbqkbnr/pppppppp/08/8/8/8/PPPPPPPP/RNBQKBNR w KQkq - 0 1"), Some(Field::Placement));
}

#[test]
fn field_count_errors() {
    assert_eq!(malformed(""), Some(Field::FieldCount));
    assert_eq!(malformed("rnbqkbnr/pppppppp/8/8/8/8/PPPPPPPP/RNBQKBNR w KQkq - 0"), Some(Field::FieldCount));
    assert_eq!(malformed("rnbqkbnr/pppppppp/8/8/8/8/PPPPPPPP/RNBQKBNR w KQkq - 0 1 "), Some(Field::FieldCount));
    assert_eq!(malformed("rnbqkbnr/pppppppp/8/8/8/8/PPPPPPPP/RNBQKBNR  w KQkq - 0 1"), Some(Field::FieldCount));
}

#[test]
fn side_castling_and_en_passant_errors() {
    assert_eq!(malformed("8/8/8/8/8/8/8/8 x KQkq - 0 1"), Some(Field::SideToMove));
    assert_eq!(malformed("8/8/8/8/8/8/8/8 W KQkq - 0 1"), Some(Field::SideToMove));
    assert_eq!(malformed("8/8/8/8/8/8/8/8 w KKq - 0 1"), Some(Field::Castling));
    assert_eq!(malformed("8/8/8/8/8/8/8/8 w KX - 0 1"), Some(Field::Castling));
    assert_eq!(malformed("8/8/8/8/8/8/8/8 w -K - 0 1"), Some(Field::Castling));
    assert_eq!(malformed("8/8/8/8/8/8/8/8 w - e9 0 1"), Some(Field::EnPassant));
    assert_eq!(malformed("8/8/8/8/8/8/8/8 w - i3 0 1"), Some(Field::EnPassant));
    assert_eq!(malformed("8/8/8/8/8/8/8/8 w - e33 0 1"), Some(Field::EnPassant));
}

#[test]
fn counter_errors() {
    assert_eq!(malformed("8/8/8/8/8/8/8/8 w - - x 1"), Some(Field::HalfMoveClock));
    assert_eq!(malformed("8/8/8/8/8/8/8/8 w - - 256 1"), Some(Field::HalfMoveClock));
    assert_eq!(malformed("8/8/8/8/8/8/8/8 w - - -1 1"), Some(Field::HalfMoveClock));
    assert_eq!(malformed("8/8/8/8/8/8/8/8 w - - 0 1a"), Some(Field::FullMoveNumber));
    assert_eq!(malformed("8/8/8/8/8/8/8/8 w - - 0 65536"), Some(Field::FullMoveNumber));
}

#[test]
fn first_malformed_field_is_reported() {
    assert_eq!(malformed("8/8/8/8/8/8/8/7 x KK e9 a b"), Some(Field::Placement));
    assert_eq!(malformed("8/8/8/8/8/8/8/8 w KK e9 a b"), Some(Field::Castling));
}

#[test]
fn counters_at_their_limits() {
    let game = Game::from_fen("8/8/8/8/8/8/8/8 w Qk e6 255 65535").unwrap();
    assert_eq!(game.half_move_clock, 255);
    assert_eq!(game.full_move_number, 65535);
    assert_eq!(game.pieces.len(), 0);
    assert_eq!(game.castling_rights.bits(), WHITE_QUEEN_SIDE | BLACK_KING_SIDE);
    assert_eq!(game.en_passant, Some(1u64 << 44));
    assert_eq!(bit_to_position(game.en_passant.unwrap()), Ok("e6".to_string()));
}

#[test]
fn decoding_then_drawing_is_stable() {
    let first = Game::from_fen(START).unwrap().to_string();
    let second = Game::from_fen(START).unwrap().to_string();
    assert_eq!(first, second);
    let game = Game::from_fen(START).unwrap();
    assert_eq!(game.to_string(), game.to_string());
}

#[test]
fn castling_rights_flags() {
    let mut rights = CastlingRights::empty();
    assert_eq!(rights.bits(), 0);
    assert!(!rights.contains(WHITE_KING_SIDE));
    rights.insert(WHITE_KING_SIDE);
    rights.insert(BLACK_QUEEN_SIDE);
    assert!(rights.contains(WHITE_KING_SIDE));
    assert!(rights.contains(BLACK_QUEEN_SIDE));
    assert!(!rights.contains(WHITE_QUEEN_SIDE));
    assert_eq!(rights.bits(), 0b1001);
    rights.remove(WHITE_KING_SIDE);
    assert_eq!(rights.bits(), 0b1000);
    let all = CastlingRights::all();
    assert!(all.contains(WHITE_KING_SIDE | WHITE_QUEEN_SIDE | BLACK_KING_SIDE | BLACK_QUEEN_SIDE));
    assert_eq!(all.bits(), 15);
    assert_eq!(CastlingRights::from_bits(5).map(|r| r.bits()), Some(5));
    assert_eq!(CastlingRights::from_bits(16), None);
}
