//! The 8×8 board of optional pieces.

use vstd::prelude::*;

use crate::pieces::Piece;

verus! {

/// A square, addressed by 1-based rank and file.
#[derive(Clone, Copy, Debug, PartialEq, Eq, Structural)]
pub struct Coordinate {
    pub rank: u8,
    pub file: u8,
}

impl Coordinate {
    /// Both rank and file lie in `1..=8`.
    pub open spec fn is_on_board(self) -> bool {
        1 <= self.rank <= 8 && 1 <= self.file <= 8
    }
}

/// Where square (`rank`, `file`) sits in a board's view: squares are listed
/// as FEN lists them, rank 8 first, and within a rank from file 1 to file 8.
pub open spec fn square_index(rank: int, file: int) -> int {
    (8 - rank) * 8 + (file - 1)
}

/// An 8×8 grid in which every square holds either no piece or one piece.
#[derive(Debug, PartialEq, Eq)]
pub struct Board {
    squares: [Option<Piece>; 64],
}

impl View for Board {
    type V = Seq<Option<Piece>>;

    /// The 64 squares, in the order of `square_index`.
    closed spec fn view(&self) -> Seq<Option<Piece>> {
        self.squares@
    }
}

impl Board {
    /// The content of square (`rank`, `file`).
    pub open spec fn square(&self, rank: int, file: int) -> Option<Piece> {
        self@[square_index(rank, file)]
    }

    /// An empty board: all 64 squares unoccupied.
    pub fn new() -> (b: Board)
        ensures
            b@ == Seq::new(64, |i: int| None::<Piece>),
    {
        let b = Board { squares: [None; 64] };
        assert(b@ =~= Seq::new(64, |i: int| None::<Piece>));
        b
    }

    /// Puts `piece` on square (`rank`, `file`) and returns what stood there.
    pub fn insert_piece(&mut self, rank: u8, file: u8, piece: Piece) -> (prev: Option<Piece>)
        requires
            1 <= rank <= 8,
            1 <= file <= 8,
        ensures
            prev == old(self).square(rank as int, file as int),
            final(self)@ == old(self)@.update(square_index(rank as int, file as int), Some(piece)),
    {
        let idx: usize = (8 - rank as usize) * 8 + (file as usize - 1);
        let prev = self.squares[idx];
        self.squares[idx] = Some(piece);
        prev
    }

    /// Every board has exactly 64 squares.
    pub proof fn lemma_view_len(&self)
        ensures
            self@.len() == 64,
    {
    }

    /// The content of square (`rank`, `file`).
    pub fn piece_at(&self, rank: u8, file: u8) -> (r: Option<Piece>)
        requires
            1 <= rank <= 8,
            1 <= file <= 8,
        ensures
            r == self.square(rank as int, file as int),
    {
        let idx: usize = (8 - rank as usize) * 8 + (file as usize - 1);
        self.squares[idx]
    }

    /// The content of the square at `c`.
    pub fn piece_at_coordinate(&self, c: Coordinate) -> (r: Option<Piece>)
        requires
            c.is_on_board(),
        ensures
            r == self.square(c.rank as int, c.file as int),
    {
        self.piece_at(c.rank, c.file)
    }
}

} // verus!
