use fen_parser::board::Board;
use fen_parser::fen::{parse_fen, FenError, FenField, GameState};
use fen_parser::pieces::{Color, Piece, PieceKind};

const START: &str = "rnbqkbnr/pppppppp/8/8/8/8/PPPPPPPP/RNBQKBNR w KQkq - 0 1";
const SICILIAN: &str = "rnbqkbnr/pp1ppppp/8/2p5/4P3/8/PPPP1PPP/RNBQKBNR w KQkq c6 0 2";

fn piece(kind: PieceKind, color: Color) -> Option<Piece> {
    Some(Piece { kind, color })
}

fn occupied(board: &Board) -> usize {
    let mut n = 0;
    for rank in 1..=8u8 {
        for file in 1..=8u8 {
            if board.piece_at(rank, file).is_some() {
                n += 1;
            }
        }
    }
    n
}

#[test]
fn test_default_fen() {
    let fen = "rnbqkbnr/pppppppp/8/8/8/8/PPPPPPPP/RNBQKBNR w KQkq - 0 1";
    let from_fen: GameState = fen.parse().unwrap();
    println!("{:#?}", from_fen);
}

#[test]
fn test_sicilian_fen() {
    let fen = "rnbqkbnr/pp1ppppp/8/2p5/4P3/8/PPPP1PPP/RNBQKBNR w KQkq c6 0 2";
    let game: GameState = fen.parse().unwrap();
    println!("{:#?}", game);
}

#[test]
fn start_position_fields() {
    let g = parse_fen(START).unwrap();
    assert_eq!(g.active_color(), Color::White);
    assert!(g.white_king_castle());
    assert!(g.white_queen_castle());
    assert!(g.black_king_castle());
    assert!(g.black_queen_castle());
    assert_eq!(g.en_passant(), "-");
    assert_eq!(g.halfmove_clock(), 0);
    assert_eq!(g.fullmove_number(), 1);
    assert_eq!(g.board().piece_at(8, 1), piece(PieceKind::Rook, Color::Black));
    assert_eq!(g.board().piece_at(2, 1), piece(PieceKind::Pawn, Color::White));
    assert_eq!(g.board().piece_at(1, 5), piece(PieceKind::King, Color::White));
    assert_eq!(g.board().piece_at(8, 4), piece(PieceKind::Queen, Color::Black));
    assert_eq!(g.board().piece_at(4, 4), None);
}

#[test]
fn sicilian_position_fields() {
    let g = parse_fen(SICILIAN).unwrap();
    assert_eq!(g.en_passant(), "c6");
    assert_eq!(g.fullmove_number(), 2);
    assert_eq!(g.board().piece_at(5, 3), piece(PieceKind::Pawn, Color::Black));
    assert_eq!(g.board().piece_at(7, 3), None);
    assert_eq!(g.board().piece_at(4, 5), piece(PieceKind::Pawn, Color::White));
    assert_eq!(g.board().piece_at(2, 5), None);
}

#[test]
fn occupied_squares_equal_piece_letters() {
    assert_eq!(occupied(parse_fen(START).unwrap().board()), 32);
    assert_eq!(occupied(parse_fen(SICILIAN).unwrap().board()), 32);
    let g = parse_fen("4k3/8/8/8/8/8/8/4K2R w K - 0 1").unwrap();
    assert_eq!(occupied(g.board()), 3);
    let empty = parse_fen("8/8/8/8/8/8/8/8 b - - 0 1").unwrap();
    assert_eq!(occupied(empty.board()), 0);
}

#[test]
fn seven_rows_is_malformed() {
    let r = parse_fen("rnbqkbnr/pppppppp/8/8/8/PPPPPPPP/RNBQKBNR w KQkq - 0 1");
    assert_eq!(r.unwrap_err(), FenError::MalformedPlacement);
}

#[test]
fn nine_rows_is_malformed() {
    let r = parse_fen("rnbqkbnr/pppppppp/8/8/8/8/8/PPPPPPPP/RNBQKBNR w KQkq - 0 1");
    assert_eq!(r.unwrap_err(), FenError::MalformedPlacement);
}

#[test]
fn invalid_piece_char_x() {
    let r = parse_fen("rnbqkbnr/ppppxppp/8/8/8/8/PPPPPPPP/RNBQKBNR w KQkq - 0 1");
    assert_eq!(r.unwrap_err(), FenError::InvalidPieceChar('x'));
}

#[test]
fn digits_nine_and_zero_are_invalid() {
    let r = parse_fen("9/8/8/8/8/8/8/8 w - - 0 1");
    assert_eq!(r.unwrap_err(), FenError::InvalidPieceChar('9'));
    let r = parse_fen("08/8/8/8/8/8/8/8 w - - 0 1");
    assert_eq!(r.unwrap_err(), FenError::InvalidPieceChar('0'));
}

#[test]
fn row_overflow_is_malformed() {
    let r = parse_fen("ppppppppp/8/8/8/8/8/8/8 w - - 0 1");
    assert_eq!(r.unwrap_err(), FenError::MalformedPlacement);
    let r = parse_fen("44p/8/8/8/8/8/8/8 w - - 0 1");
    assert_eq!(r.unwrap_err(), FenError::MalformedPlacement);
    let r = parse_fen("7/8/8/8/8/8/8/8 w - - 0 1");
    assert_eq!(r.unwrap_err(), FenError::MalformedPlacement);
}

#[test]
fn missing_fields_are_named() {
    assert_eq!(parse_fen("").unwrap_err(), FenError::MissingField(FenField::ActiveColor));
    let p = "8/8/8/8/8/8/8/8";
    assert_eq!(parse_fen(p).unwrap_err(), FenError::MissingField(FenField::ActiveColor));
    assert_eq!(
        parse_fen(&format!("{} w", p)).unwrap_err(),
        FenError::MissingField(FenField::Castling)
    );
    assert_eq!(
        parse_fen(&format!("{} w -", p)).unwrap_err(),
        FenError::MissingField(FenField::EnPassant)
    );
    assert_eq!(
        parse_fen(&format!("{} w - -", p)).unwrap_err(),
        FenError::MissingField(FenField::HalfmoveClock)
    );
    assert_eq!(
        parse_fen(&format!("{} w - - 0", p)).unwrap_err(),
        FenError::MissingField(FenField::FullmoveNumber)
    );
}

#[test]
fn missing_field_reported_before_placement_errors() {
    let r = parse_fen("8/8/8 w");
    assert_eq!(r.unwrap_err(), FenError::MissingField(FenField::Castling));
}

#[test]
fn parsing_twice_gives_equal_states() {
    assert_eq!(parse_fen(SICILIAN), parse_fen(SICILIAN));
    assert_eq!(parse_fen(START).unwrap(), START.parse::<GameState>().unwrap());
    assert_ne!(parse_fen(START).unwrap(), parse_fen(SICILIAN).unwrap());
}

#[test]
fn active_color_is_lenient() {
    let b = parse_fen("8/8/8/8/8/8/8/8 b - - 0 1").unwrap();
    assert_eq!(b.active_color(), Color::Black);
    let other = parse_fen("8/8/8/8/8/8/8/8 white - - 0 1").unwrap();
    assert_eq!(other.active_color(), Color::Black);
}

#[test]
fn castling_letters_are_independent() {
    let g = parse_fen("8/8/8/8/8/8/8/8 w qK - 0 1").unwrap();
    assert!(g.white_king_castle());
    assert!(!g.white_queen_castle());
    assert!(!g.black_king_castle());
    assert!(g.black_queen_castle());
    let none = parse_fen("8/8/8/8/8/8/8/8 w - - 0 1").unwrap();
    assert!(!none.white_king_castle() && !none.white_queen_castle());
    assert!(!none.black_king_castle() && !none.black_queen_castle());
}

#[test]
fn counters_default_to_zero() {
    let g = parse_fen("8/8/8/8/8/8/8/8 w - e3 x -7").unwrap();
    assert_eq!(g.en_passant(), "e3");
    assert_eq!(g.halfmove_clock(), 0);
    assert_eq!(g.fullmove_number(), 0);
    let big = parse_fen("8/8/8/8/8/8/8/8 w - - 4294967295 4294967296").unwrap();
    assert_eq!(big.halfmove_clock(), 4294967295);
    assert_eq!(big.fullmove_number(), 0);
    let plus = parse_fen("8/8/8/8/8/8/8/8 w - - +12 37").unwrap();
    assert_eq!(plus.halfmove_clock(), 12);
    assert_eq!(plus.fullmove_number(), 37);
}

#[test]
fn double_space_makes_an_empty_field() {
    let g = parse_fen("8/8/8/8/8/8/8/8  w KQ - 5").unwrap();
    assert_eq!(g.active_color(), Color::Black);
    assert!(!g.white_king_castle());
    assert_eq!(g.en_passant(), "KQ");
    assert_eq!(g.halfmove_clock(), 0);
    assert_eq!(g.fullmove_number(), 5);
}

#[test]
fn extra_fields_are_ignored() {
    let g = parse_fen("8/8/8/8/8/8/8/8 w - - 3 9 trailing words").unwrap();
    assert_eq!(g.halfmove_clock(), 3);
    assert_eq!(g.fullmove_number(), 9);
}
