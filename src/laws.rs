//! Properties that hold of every FEN string, stated over the parser's model.

use vstd::prelude::*;

use crate::fen::{
    decode_row, decode_rows, empty_squares, expand_row, fen_field, is_run_length, parse_fen_spec,
    result_view, row_step, FenError, GameState, GameStateView,
};
use crate::pieces::{piece_of_char, Piece};
use crate::text::{digit_value, lemma_split_on_nonempty, split_on};

verus! {

/// The number of occupied squares in `cells`.
pub open spec fn occupied_count(cells: Seq<Option<Piece>>) -> nat
    decreases cells.len(),
{
    if cells.len() == 0 {
        0
    } else {
        occupied_count(cells.drop_last()) + if cells.last() is Some {
            1nat
        } else {
            0nat
        }
    }
}

/// The number of piece letters in `s`.
pub open spec fn piece_letter_count(s: Seq<char>) -> nat
    decreases s.len(),
{
    if s.len() == 0 {
        0
    } else {
        piece_letter_count(s.drop_last()) + if piece_of_char(s.last()) is Some {
            1nat
        } else {
            0nat
        }
    }
}

/// The number of piece letters in all of `parts` together.
pub open spec fn total_piece_letters(parts: Seq<Seq<char>>) -> nat
    decreases parts.len(),
{
    if parts.len() == 0 {
        0
    } else {
        total_piece_letters(parts.drop_last()) + piece_letter_count(parts.last())
    }
}

/// How many files a row text covers: each digit from 1 to 8 its value, each
/// piece letter one.
pub open spec fn row_width(row: Seq<char>) -> nat
    decreases row.len(),
{
    if row.len() == 0 {
        0
    } else {
        row_width(row.drop_last()) + if is_run_length(row.last()) {
            digit_value(row.last())
        } else if piece_of_char(row.last()) is Some {
            1nat
        } else {
            0nat
        }
    }
}

/// The placement field of a FEN string, split into its rows.
pub open spec fn placement_rows(s: Seq<char>) -> Seq<Seq<char>> {
    split_on(split_on(s, ' ')[0], '/')
}

proof fn lemma_occupied_concat(a: Seq<Option<Piece>>, b: Seq<Option<Piece>>)
    ensures
        occupied_count(a + b) == occupied_count(a) + occupied_count(b),
    decreases b.len(),
{
    if b.len() > 0 {
        lemma_occupied_concat(a, b.drop_last());
        assert((a + b).drop_last() =~= a + b.drop_last());
    } else {
        assert(a + b =~= a);
    }
}

proof fn lemma_occupied_empty(n: nat)
    ensures
        occupied_count(empty_squares(n)) == 0,
    decreases n,
{
    if n > 0 {
        lemma_occupied_empty((n - 1) as nat);
        assert(empty_squares(n).drop_last() =~= empty_squares((n - 1) as nat));
    }
}

/// A row that expands has as many occupied squares as piece letters, and
/// covers as many squares as its width.
proof fn lemma_expand_row_counts(row: Seq<char>)
    requires
        expand_row(row) is Ok,
    ensures
        occupied_count(expand_row(row)->Ok_0) == piece_letter_count(row),
        expand_row(row)->Ok_0.len() == row_width(row),
    decreases row.len(),
{
    if row.len() > 0 {
        let init = row.drop_last();
        let c = row.last();
        lemma_expand_row_counts(init);
        let cells = expand_row(init)->Ok_0;
        if is_run_length(c) {
            lemma_occupied_concat(cells, empty_squares(digit_value(c)));
            lemma_occupied_empty(digit_value(c));
        } else {
            assert(cells.push(piece_of_char(c)).drop_last() =~= cells);
        }
    }
}

/// Decoded rows have, together, as many occupied squares as piece letters.
proof fn lemma_decode_rows_counts(rows: Seq<Seq<char>>, n: nat)
    requires
        n <= rows.len(),
        decode_rows(rows, n) is Ok,
    ensures
        occupied_count(decode_rows(rows, n)->Ok_0) == total_piece_letters(rows.take(n as int)),
        decode_rows(rows, n)->Ok_0.len() == 8 * n,
        forall|k: int| 0 <= k < n ==> row_width(#[trigger] rows[k]) == 8,
    decreases n,
{
    if n == 0 {
        assert(rows.take(0) =~= Seq::<Seq<char>>::empty());
    } else {
        let m = (n - 1) as nat;
        lemma_decode_rows_counts(rows, m);
        let row = rows[m as int];
        lemma_expand_row_counts(row);
        lemma_occupied_concat(decode_rows(rows, m)->Ok_0, decode_row(row)->Ok_0);
        assert(rows.take(n as int).drop_last() =~= rows.take(m as int));
    }
}

/// Splitting at '/' loses no piece letter.
proof fn lemma_split_keeps_letters(field: Seq<char>)
    ensures
        total_piece_letters(split_on(field, '/')) == piece_letter_count(field),
    decreases field.len(),
{
    if field.len() == 0 {
        let parts = split_on(field, '/');
        assert(parts == seq![Seq::<char>::empty()]);
        assert(parts.drop_last() =~= Seq::<Seq<char>>::empty());
        assert(total_piece_letters(parts.drop_last()) == 0);
    } else {
        let init = field.drop_last();
        let c = field.last();
        lemma_split_keeps_letters(init);
        lemma_split_on_nonempty(init, '/');
        let parts = split_on(init, '/');
        if c == '/' {
            assert(piece_of_char(c) is None);
            assert(parts.push(Seq::empty()).drop_last() =~= parts);
        } else {
            let last = parts.last();
            let upd = parts.update(parts.len() - 1, last.push(c));
            assert(upd.drop_last() =~= parts.drop_last());
            assert(last.push(c).drop_last() =~= last);
            assert(split_on(field, '/') == upd);
            assert(total_piece_letters(upd) == total_piece_letters(upd.drop_last())
                + piece_letter_count(upd.last()));
            assert(total_piece_letters(parts) == total_piece_letters(parts.drop_last())
                + piece_letter_count(last));
        }
    }
}

/// A FEN string that parses puts exactly as many pieces on the board as its
/// placement field has piece letters; digits and '/' contribute none.
pub proof fn lemma_occupied_squares_match_piece_letters(s: Seq<char>)
    requires
        parse_fen_spec(s) is Ok,
    ensures
        occupied_count(parse_fen_spec(s)->Ok_0.board) == piece_letter_count(split_on(s, ' ')[0]),
{
    let rows = placement_rows(s);
    lemma_decode_rows_counts(rows, 8);
    assert(rows.take(8) =~= rows);
    lemma_split_keeps_letters(split_on(s, ' ')[0]);
}

/// A FEN string that parses has a placement field of exactly eight rows, each
/// of which covers exactly eight files, and a board of 64 squares.
pub proof fn lemma_rows_cover_eight_files(s: Seq<char>)
    requires
        parse_fen_spec(s) is Ok,
    ensures
        placement_rows(s).len() == 8,
        forall|k: int| 0 <= k < 8 ==> row_width(#[trigger] placement_rows(s)[k]) == 8,
        parse_fen_spec(s)->Ok_0.board.len() == 64,
{
    lemma_decode_rows_counts(placement_rows(s), 8);
}

/// A FEN string of six fields or more whose placement field does not have
/// eight rows is rejected as a malformed placement.
pub proof fn lemma_wrong_row_count_rejected(s: Seq<char>)
    requires
        split_on(s, ' ').len() >= 6,
        placement_rows(s).len() != 8,
    ensures
        parse_fen_spec(s) == Err::<GameStateView, FenError>(FenError::MalformedPlacement),
{
}

/// A FEN string of fewer than six fields is rejected, naming the first field
/// that is absent.
pub proof fn lemma_missing_field_named(s: Seq<char>)
    requires
        split_on(s, ' ').len() < 6,
    ensures
        parse_fen_spec(s) == Err::<GameStateView, FenError>(
            FenError::MissingField(fen_field(split_on(s, ' ').len() as int)),
        ),
        split_on(s, ' ').len() >= 1,
{
    lemma_split_on_nonempty(s, ' ');
}

/// Parsing is a function of the text alone: two parses of equal text give
/// equal results.
pub proof fn lemma_parse_is_deterministic(
    s1: Seq<char>,
    s2: Seq<char>,
    r1: Result<GameState, FenError>,
    r2: Result<GameState, FenError>,
)
    requires
        s1 == s2,
        result_view(r1) == parse_fen_spec(s1),
        result_view(r2) == parse_fen_spec(s2),
    ensures
        result_view(r1) == result_view(r2),
{
}

} // verus!
