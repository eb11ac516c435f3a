//! The game state that a FEN string describes, and the parser that reads it.

use vstd::prelude::*;
use vstd::string::*;

use crate::board::{square_index, Board};
use crate::pieces::{piece_of_char, Color, Piece};
use crate::text::{
    contains_char, digit_value, lemma_split_on_nonempty, parse_u32, split_on, split_str, u32_or_zero,
};

verus! {

/// The six space-separated fields of a FEN string, in order.
#[derive(Clone, Copy, Debug, PartialEq, Eq, Structural)]
pub enum FenField {
    Placement,
    ActiveColor,
    Castling,
    EnPassant,
    HalfmoveClock,
    FullmoveNumber,
}

/// The field at position `i` (counted from 0) of a FEN string.
pub open spec fn fen_field(i: int) -> FenField {
    if i <= 0 {
        FenField::Placement
    } else if i == 1 {
        FenField::ActiveColor
    } else if i == 2 {
        FenField::Castling
    } else if i == 3 {
        FenField::EnPassant
    } else if i == 4 {
        FenField::HalfmoveClock
    } else {
        FenField::FullmoveNumber
    }
}

impl FenField {
    /// The field at position `i` (counted from 0); 5 and above name the last.
    pub fn at(i: usize) -> (f: FenField)
        ensures
            f == fen_field(i as int),
    {
        if i == 0 {
            FenField::Placement
        } else if i == 1 {
            FenField::ActiveColor
        } else if i == 2 {
            FenField::Castling
        } else if i == 3 {
            FenField::EnPassant
        } else if i == 4 {
            FenField::HalfmoveClock
        } else {
            FenField::FullmoveNumber
        }
    }
}

/// Why a FEN string was rejected.
#[derive(Clone, Copy, Debug, PartialEq, Eq, Structural)]
pub enum FenError {
    /// The string has fewer than six fields; this one is the first missing.
    MissingField(FenField),
    /// The placement field is not eight rows of exactly eight files each.
    MalformedPlacement,
    /// A placement character is neither a piece letter nor a digit 1 to 8.
    InvalidPieceChar(char),
}

/// `c` is a run of empty files: a digit from 1 to 8.
pub open spec fn is_run_length(c: char) -> bool {
    '1' <= c && c <= '8'
}

/// `n` empty squares.
pub open spec fn empty_squares(n: nat) -> Seq<Option<Piece>> {
    Seq::new(n, |i: int| None::<Piece>)
}

/// Extends the squares decoded so far in a row by the character `c`.
pub open spec fn row_step(cells: Seq<Option<Piece>>, c: char) -> Result<
    Seq<Option<Piece>>,
    FenError,
> {
    if is_run_length(c) {
        if cells.len() + digit_value(c) > 8 {
            Err(FenError::MalformedPlacement)
        } else {
            Ok(cells + empty_squares(digit_value(c)))
        }
    } else {
        match piece_of_char(c) {
            Some(p) => if cells.len() + 1 > 8 {
                Err(FenError::MalformedPlacement)
            } else {
                Ok(cells.push(Some(p)))
            },
            None => Err(FenError::InvalidPieceChar(c)),
        }
    }
}

/// The squares that a row text describes, read left to right and stopping at
/// the first character that is invalid or runs past the eighth file.
pub open spec fn expand_row(row: Seq<char>) -> Result<Seq<Option<Piece>>, FenError>
    decreases row.len(),
{
    if row.len() == 0 {
        Ok(Seq::empty())
    } else {
        match expand_row(row.drop_last()) {
            Ok(cells) => row_step(cells, row.last()),
            Err(e) => Err(e),
        }
    }
}

/// The eight squares of one rank, from its row text.
pub open spec fn decode_row(row: Seq<char>) -> Result<Seq<Option<Piece>>, FenError> {
    match expand_row(row) {
        Ok(cells) => if cells.len() == 8 {
            Ok(cells)
        } else {
            Err(FenError::MalformedPlacement)
        },
        Err(e) => Err(e),
    }
}

/// The squares of the first `n` rows, one after the other; the first error
/// met ends the decoding.
pub open spec fn decode_rows(rows: Seq<Seq<char>>, n: nat) -> Result<Seq<Option<Piece>>, FenError>
    decreases n,
{
    if n == 0 {
        Ok(Seq::empty())
    } else {
        match decode_rows(rows, (n - 1) as nat) {
            Ok(done) => match decode_row(rows[n - 1]) {
                Ok(cells) => Ok(done + cells),
                Err(e) => Err(e),
            },
            Err(e) => Err(e),
        }
    }
}

/// The 64 squares (in the order of `square_index`) that a placement field
/// describes: eight '/'-separated rows, rank 8 first.
pub open spec fn decode_placement(field: Seq<char>) -> Result<Seq<Option<Piece>>, FenError> {
    let rows = split_on(field, '/');
    if rows.len() != 8 {
        Err(FenError::MalformedPlacement)
    } else {
        decode_rows(rows, 8)
    }
}

/// Once a prefix of a row fails, the whole row fails the same way.
proof fn lemma_expand_row_error_persists(row: Seq<char>, j: int, k: int)
    requires
        0 <= j <= k <= row.len(),
        expand_row(row.take(j)) is Err,
    ensures
        expand_row(row.take(k)) == expand_row(row.take(j)),
    decreases k - j,
{
    if j < k {
        lemma_expand_row_error_persists(row, j, k - 1);
        assert(row.take(k).drop_last() =~= row.take(k - 1));
    }
}

/// Once the first rows fail, all later prefixes of rows fail the same way.
proof fn lemma_decode_rows_error_persists(rows: Seq<Seq<char>>, i: nat, k: nat)
    requires
        i <= k,
        decode_rows(rows, i) is Err,
    ensures
        decode_rows(rows, k) == decode_rows(rows, i),
    decreases k - i,
{
    if i < k {
        lemma_decode_rows_error_persists(rows, i, (k - 1) as nat);
    }
}

/// `cells` followed by empty squares up to 64.
pub open spec fn padded(cells: Seq<Option<Piece>>) -> Seq<Option<Piece>> {
    cells + empty_squares((64 - cells.len()) as nat)
}

/// Row `i` (counted from 0) of a placement failed with `e` partway through:
/// the whole placement fails with `e`.
proof fn lemma_row_failure(rows: Seq<Seq<char>>, i: nat, done: Seq<Option<Piece>>, j: int, e: FenError)
    requires
        rows.len() == 8,
        i < 8,
        decode_rows(rows, i) == Ok::<Seq<Option<Piece>>, FenError>(done),
        0 <= j <= rows[i as int].len(),
        expand_row(rows[i as int].take(j)) == Err::<Seq<Option<Piece>>, FenError>(e),
    ensures
        decode_rows(rows, 8) == Err::<Seq<Option<Piece>>, FenError>(e),
{
    let row = rows[i as int];
    lemma_expand_row_error_persists(row, j, row.len() as int);
    assert(row.take(row.len() as int) =~= row);
    lemma_decode_rows_error_persists(rows, i + 1, 8);
}

/// Decodes a placement field onto a fresh board.
fn decode_placement_field(field: &str) -> (r: Result<Board, FenError>)
    ensures
        match r {
            Ok(b) => decode_placement(field@) == Ok::<Seq<Option<Piece>>, FenError>(b@),
            Err(e) => decode_placement(field@) == Err::<Seq<Option<Piece>>, FenError>(e),
        },
{
    let rows = split_str(field, '/');
    let ghost rv = rows.deep_view();
    if rows.len() != 8 {
        return Err(FenError::MalformedPlacement);
    }
    let mut board = Board::new();
    let ghost mut done: Seq<Option<Piece>> = Seq::empty();
    assert(board@ =~= padded(done));
    let mut i: usize = 0;
    while i < 8
        invariant
            rows.len() == 8,
            rv == rows.deep_view(),
            rv == split_on(field@, '/'),
            i <= 8,
            decode_rows(rv, i as nat) == Ok::<Seq<Option<Piece>>, FenError>(done),
            done.len() == 8 * i,
            board@ == padded(done),
        decreases 8 - i,
    {
        let row = rows[i].as_str();
        assert(row@ == rv[i as int]);
        let n = row.unicode_len();
        let rank: u8 = 8 - i as u8;
        let mut file: u8 = 1;
        let mut j: usize = 0;
        let ghost mut cur: Seq<Option<Piece>> = Seq::empty();
        assert(row@.take(0) =~= Seq::<char>::empty());
        while j < n
            invariant
                rows.len() == 8,
                rv == rows.deep_view(),
                rv == split_on(field@, '/'),
                i < 8,
                rank == 8 - i,
                row@ == rv[i as int],
                n == row@.len(),
                j <= n,
                decode_rows(rv, i as nat) == Ok::<Seq<Option<Piece>>, FenError>(done),
                done.len() == 8 * i,
                expand_row(row@.take(j as int)) == Ok::<Seq<Option<Piece>>, FenError>(cur),
                cur.len() + 1 == file,
                file <= 9,
                board@ == padded(done + cur),
            decreases n - j,
        {
            let c = row.get_char(j);
            assert(row@.take(j + 1).drop_last() =~= row@.take(j as int));
            if '1' <= c && c <= '8' {
                let run: u8 = (c as u32 - '0' as u32) as u8;
                if file - 1 + run > 8 {
                    proof { lemma_row_failure(rv, i as nat, done, j + 1, FenError::MalformedPlacement); }
                    return Err(FenError::MalformedPlacement);
                }
                proof {
                    assert(padded(done + (cur + empty_squares(run as nat))) =~= padded(done + cur));
                    cur = cur + empty_squares(run as nat);
                }
                file = file + run;
            } else {
                match Piece::from_char(c) {
                    Some(p) => {
                        if file > 8 {
                            proof { lemma_row_failure(rv, i as nat, done, j + 1, FenError::MalformedPlacement); }
                            return Err(FenError::MalformedPlacement);
                        }
                        assert(square_index(rank as int, file as int) == (done + cur).len());
                        board.insert_piece(rank, file, p);
                        proof {
                            assert(padded(done + cur.push(Some(p))) =~= padded(done + cur).update(
                                (done + cur).len() as int,
                                Some(p),
                            ));
                            cur = cur.push(Some(p));
                        }
                        file = file + 1;
                    },
                    None => {
                        proof { lemma_row_failure(rv, i as nat, done, j + 1, FenError::InvalidPieceChar(c)); }
                        return Err(FenError::InvalidPieceChar(c));
                    },
                }
            }
            j = j + 1;
        }
        assert(row@.take(n as int) =~= row@);
        if file != 9 {
            proof { lemma_decode_rows_error_persists(rv, (i + 1) as nat, 8); }
            return Err(FenError::MalformedPlacement);
        }
        proof {
            done = done + cur;
        }
        i = i + 1;
    }
    Ok(board)
}

/// The content of a game state, as plain values.
pub struct GameStateView {
    pub board: Seq<Option<Piece>>,
    pub active_color: Color,
    pub white_king_castle: bool,
    pub white_queen_castle: bool,
    pub black_king_castle: bool,
    pub black_queen_castle: bool,
    pub en_passant: Seq<char>,
    pub halfmove_clock: u32,
    pub fullmove_number: u32,
}

/// What a FEN string describes. Fields are separated by single spaces; a
/// string of fewer than six fields names the first one it lacks, and fields
/// after the sixth are ignored. Only "w" makes White the side to move; each
/// castling right is the presence of its letter; the en-passant field is kept
/// as it stands; a counter that is not a `u32` reads as 0.
pub open spec fn parse_fen_spec(s: Seq<char>) -> Result<GameStateView, FenError> {
    let f = split_on(s, ' ');
    if f.len() < 6 {
        Err(FenError::MissingField(fen_field(f.len() as int)))
    } else {
        match decode_placement(f[0]) {
            Ok(board) => Ok(
                GameStateView {
                    board,
                    active_color: if f[1] == seq!['w'] {
                        Color::White
                    } else {
                        Color::Black
                    },
                    white_king_castle: f[2].contains('K'),
                    white_queen_castle: f[2].contains('Q'),
                    black_king_castle: f[2].contains('k'),
                    black_queen_castle: f[2].contains('q'),
                    en_passant: f[3],
                    halfmove_clock: u32_or_zero(f[4]),
                    fullmove_number: u32_or_zero(f[5]),
                },
            ),
            Err(e) => Err(e),
        }
    }
}

/// A chess position as FEN describes it: the board, the side to move, the
/// four castling rights, the en-passant target and the two move counters.
#[derive(Debug, PartialEq, Eq)]
pub struct GameState {
    board: Board,
    active_color: Color,
    white_king_castle: bool,
    white_queen_castle: bool,
    black_king_castle: bool,
    black_queen_castle: bool,
    en_passant: String,
    halfmove_clock: u32,
    fullmove_number: u32,
}

impl View for GameState {
    type V = GameStateView;

    closed spec fn view(&self) -> GameStateView {
        GameStateView {
            board: self.board@,
            active_color: self.active_color,
            white_king_castle: self.white_king_castle,
            white_queen_castle: self.white_queen_castle,
            black_king_castle: self.black_king_castle,
            black_queen_castle: self.black_queen_castle,
            en_passant: self.en_passant@,
            halfmove_clock: self.halfmove_clock,
            fullmove_number: self.fullmove_number,
        }
    }
}

/// A parse result, with a game state seen through its view.
pub open spec fn result_view(r: Result<GameState, FenError>) -> Result<GameStateView, FenError> {
    match r {
        Ok(g) => Ok(g@),
        Err(e) => Err(e),
    }
}

/// Parses a whole FEN string.
pub fn parse_fen(s: &str) -> (r: Result<GameState, FenError>)
    ensures
        result_view(r) == parse_fen_spec(s@),
{
    let fields = split_str(s, ' ');
    let ghost f = fields.deep_view();
    proof { lemma_split_on_nonempty(s@, ' '); }
    if fields.len() < 6 {
        return Err(FenError::MissingField(FenField::at(fields.len())));
    }
    assert(fields[0]@ == f[0] && fields[1]@ == f[1] && fields[2]@ == f[2]);
    assert(fields[3]@ == f[3] && fields[4]@ == f[4] && fields[5]@ == f[5]);
    let board = match decode_placement_field(fields[0].as_str()) {
        Ok(b) => b,
        Err(e) => return Err(e),
    };
    let color_field = fields[1].as_str();
    let active_color = if color_field.unicode_len() == 1 && color_field.get_char(0) == 'w' {
        assert(f[1] =~= seq!['w']);
        Color::White
    } else {
        Color::Black
    };
    let castling = fields[2].as_str();
    let en_passant = fields[3].clone();
    let halfmove_clock = match parse_u32(fields[4].as_str()) {
        Some(v) => v,
        None => 0,
    };
    let fullmove_number = match parse_u32(fields[5].as_str()) {
        Some(v) => v,
        None => 0,
    };
    let g = GameState {
        board,
        active_color,
        white_king_castle: contains_char(castling, 'K'),
        white_queen_castle: contains_char(castling, 'Q'),
        black_king_castle: contains_char(castling, 'k'),
        black_queen_castle: contains_char(castling, 'q'),
        en_passant,
        halfmove_clock,
        fullmove_number,
    };
    Ok(g)
}

impl GameState {
    /// The board.
    pub fn board(&self) -> (b: &Board)
        ensures
            b@ == self@.board,
    {
        &self.board
    }

    /// The side to move.
    pub fn active_color(&self) -> (c: Color)
        ensures
            c == self@.active_color,
    {
        self.active_color
    }

    /// White may still castle king-side.
    pub fn white_king_castle(&self) -> (b: bool)
        ensures
            b == self@.white_king_castle,
    {
        self.white_king_castle
    }

    /// White may still castle queen-side.
    pub fn white_queen_castle(&self) -> (b: bool)
        ensures
            b == self@.white_queen_castle,
    {
        self.white_queen_castle
    }

    /// Black may still castle king-side.
    pub fn black_king_castle(&self) -> (b: bool)
        ensures
            b == self@.black_king_castle,
    {
        self.black_king_castle
    }

    /// Black may still castle queen-side.
    pub fn black_queen_castle(&self) -> (b: bool)
        ensures
            b == self@.black_queen_castle,
    {
        self.black_queen_castle
    }

    /// The en-passant target square, as the FEN string wrote it.
    pub fn en_passant(&self) -> (e: &str)
        ensures
            e@ == self@.en_passant,
    {
        self.en_passant.as_str()
    }

    /// Moves since the last capture or pawn move.
    pub fn halfmove_clock(&self) -> (n: u32)
        ensures
            n == self@.halfmove_clock,
    {
        self.halfmove_clock
    }

    /// The number of the current full move.
    pub fn fullmove_number(&self) -> (n: u32)
        ensures
            n == self@.fullmove_number,
    {
        self.fullmove_number
    }
}

impl std::str::FromStr for GameState {
    type Err = FenError;

    /// Parses a whole FEN string, as `parse_fen` does.
    fn from_str(s: &str) -> (r: Result<GameState, FenError>)
        ensures
            result_view(r) == parse_fen_spec(s@),
    {
        parse_fen(s)
    }
}

} // verus!
