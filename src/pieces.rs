//! Piece kinds, colours and the one-letter FEN encoding of a piece.

use vstd::prelude::*;

verus! {

/// The side a piece belongs to, or the side to move.
#[derive(Clone, Copy, Debug, PartialEq, Eq, Structural)]
pub enum Color {
    White,
    Black,
}

/// The six kinds of chess piece.
#[derive(Clone, Copy, Debug, PartialEq, Eq, Structural)]
pub enum PieceKind {
    Pawn,
    Knight,
    Bishop,
    Rook,
    Queen,
    King,
}

/// A piece: a kind and a colour.
#[derive(Clone, Copy, Debug, PartialEq, Eq, Structural)]
pub struct Piece {
    pub kind: PieceKind,
    pub color: Color,
}

/// The kind named by a FEN letter, read case-insensitively.
pub open spec fn kind_of_letter(c: char) -> Option<PieceKind> {
    if c == 'p' || c == 'P' {
        Some(PieceKind::Pawn)
    } else if c == 'n' || c == 'N' {
        Some(PieceKind::Knight)
    } else if c == 'b' || c == 'B' {
        Some(PieceKind::Bishop)
    } else if c == 'r' || c == 'R' {
        Some(PieceKind::Rook)
    } else if c == 'q' || c == 'Q' {
        Some(PieceKind::Queen)
    } else if c == 'k' || c == 'K' {
        Some(PieceKind::King)
    } else {
        None
    }
}

/// The piece that a FEN letter stands for: upper case is White, lower case
/// is Black. Any other character stands for no piece.
pub open spec fn piece_of_char(c: char) -> Option<Piece> {
    match kind_of_letter(c) {
        Some(kind) => Some(
            Piece { kind, color: if 'A' <= c && c <= 'Z' { Color::White } else { Color::Black } },
        ),
        None => None,
    }
}

impl Piece {
    /// Decodes one FEN piece letter (`PNBRQK` for White, `pnbrqk` for Black).
    pub fn from_char(c: char) -> (r: Option<Piece>)
        ensures
            r == piece_of_char(c),
    {
        let color = if 'A' <= c && c <= 'Z' {
            Color::White
        } else {
            Color::Black
        };
        let kind = if c == 'p' || c == 'P' {
            PieceKind::Pawn
        } else if c == 'n' || c == 'N' {
            PieceKind::Knight
        } else if c == 'b' || c == 'B' {
            PieceKind::Bishop
        } else if c == 'r' || c == 'R' {
            PieceKind::Rook
        } else if c == 'q' || c == 'Q' {
            PieceKind::Queen
        } else if c == 'k' || c == 'K' {
            PieceKind::King
        } else {
            return None;
        };
        Some(Piece { kind, color })
    }
}

} // verus!
