use vstd::prelude::*;
use vstd::std_specs::bits::u64_leading_zeros;
use super::bitboard_util::has_square;
use super::bitboard_util::spec_mask;
use super::bitboard_util::lemma_board_is;
use super::bitboard_util::lemma_leading_zeros;
use super::board::Board;
use super::color::Color;
use super::fen::Placement;
use super::fen::spec_blanks;
use super::fen::spec_board_of_cells;
use super::fen::spec_decimal;
use super::fen::spec_decimal_value;
use super::fen::spec_digit;
use super::fen::spec_emit_castling;
use super::fen::spec_emit_en_passant;
use super::fen::spec_emit_fen;
use super::fen::spec_emit_row;
use super::fen::spec_emit_rows;
use super::fen::spec_field;
use super::fen::spec_field_bounds;
use super::fen::spec_field_end;
use super::fen::spec_is_castling;
use super::fen::spec_is_digits;
use super::fen::spec_is_piece_letter;
use super::fen::spec_is_space;
use super::fen::spec_is_white_letter;
use super::fen::spec_parse_algebraic;
use super::fen::spec_parse_clock;
use super::fen::spec_parse_en_passant;
use super::fen::spec_parse_fen;
use super::fen::spec_parse_placement;
use super::fen::spec_parse_turn;
use super::fen::spec_placement_scan;
use super::fen::spec_placement_start;
use super::fen::spec_placement_step;
use super::fen::spec_skip_spaces;
use super::fen::lemma_scan_append;
use super::piece::Piece;
use super::piece::spec_piece_letter;
use super::position::Position;
use super::position::spec_algebraic;
use super::validity::spec_placement_squares_ok;
use super::validity::lemma_placement_squares;

verus! {

/// Whether a text can stand as a field: it is not empty and holds no
/// white space.
pub open spec fn spec_is_field(part: Seq<char>) -> bool {
    part.len() > 0 && forall|i: int| 0 <= i < part.len() ==> !spec_is_space(#[trigger] part[i])
}

/// Reading one character is one step.
proof fn lemma_scan_one(p: Placement, c: char)
    ensures
        spec_placement_scan(Some(p), seq![c]) == spec_placement_step(p, c),
{
    let text = seq![c];
    assert(text.drop_last() =~= Seq::<char>::empty());
    assert(spec_placement_scan(Some(p), text.drop_last()) == Some(p));
}

/// Reading the text of the rest of a row gives the rest of the row.
proof fn lemma_row_round_trip(p: Placement, row: Seq<char>, c: int, count: int)
    requires
        row.len() == 8,
        0 <= count <= c <= 8,
        p.col == c - count,
        p.rows <= 7,
        forall|i: int| 0 <= i < 8 ==> spec_is_piece_letter(#[trigger] row[i]) || row[i] == ' ',
        forall|i: int| c - count <= i < c ==> #[trigger] row[i] == ' ',
    ensures
        spec_placement_scan(Some(p), spec_emit_row(row, c, count)) == Some(
            Placement { cells: p.cells + row.subrange(c - count, 8), col: 8, rows: p.rows },
        ),
    decreases 8 - c,
{
    let pending = if count != 0 {
        seq![spec_digit(count)]
    } else {
        Seq::<char>::empty()
    };
    let after_pending = Placement { cells: p.cells + spec_blanks(count), col: c, rows: p.rows };
    assert(spec_placement_scan(Some(p), pending) == Some(after_pending)) by {
        if count != 0 {
            lemma_scan_one(p, spec_digit(count));
        } else {
            assert(p.cells + spec_blanks(0) =~= p.cells);
        }
    }
    assert(spec_blanks(count) =~= row.subrange(c - count, c));
    if c >= 8 {
        assert(row.subrange(c - count, c) =~= row.subrange(c - count, 8));
    } else if row[c] != ' ' {
        let letter = seq![row[c]];
        let q = Placement { cells: after_pending.cells.push(row[c]), col: c + 1, rows: p.rows };
        lemma_scan_one(after_pending, row[c]);
        let rest = spec_emit_row(row, c + 1, 0);
        lemma_row_round_trip(q, row, c + 1, 0);
        lemma_scan_append(Some(p), pending, letter);
        lemma_scan_append(Some(p), pending + letter, rest);
        assert(q.cells + row.subrange(c + 1, 8) =~= p.cells + row.subrange(c - count, 8));
        assert(spec_emit_row(row, c, count) == pending + letter + rest);
    } else {
        lemma_row_round_trip(p, row, c + 1, count + 1);
    }
}

/// Reading the text of the first rows gives the first rows.
proof fn lemma_rows_round_trip(cells: Seq<char>, r: int)
    requires
        cells.len() == 64,
        0 <= r <= 7,
        forall|i: int| 0 <= i < 64 ==> spec_is_piece_letter(#[trigger] cells[i]) || cells[i] == ' ',
    ensures
        spec_placement_scan(Some(spec_placement_start()), spec_emit_rows(cells, r)) == Some(
            Placement { cells: cells.subrange(0, 8 * r + 8), col: 8, rows: r },
        ),
    decreases r,
{
    let row = cells.subrange(8 * r, 8 * r + 8);
    assert forall|i: int| 0 <= i < 8 implies spec_is_piece_letter(#[trigger] row[i]) || row[i]
        == ' ' by {
        assert(row[i] == cells[8 * r + i]);
    }
    if r == 0 {
        lemma_row_round_trip(spec_placement_start(), row, 0, 0);
        assert(spec_placement_start().cells + row.subrange(0, 8) =~= cells.subrange(0, 8));
    } else {
        lemma_rows_round_trip(cells, r - 1);
        let before = spec_emit_rows(cells, r - 1);
        let p = Placement { cells: cells.subrange(0, 8 * r), col: 8, rows: r - 1 };
        let q = Placement { cells: cells.subrange(0, 8 * r), col: 0, rows: r };
        lemma_scan_one(p, '/');
        lemma_row_round_trip(q, row, 0, 0);
        lemma_scan_append(Some(spec_placement_start()), before, seq!['/']);
        lemma_scan_append(
            Some(spec_placement_start()),
            before + seq!['/'],
            spec_emit_row(row, 0, 0),
        );
        assert(q.cells + row.subrange(0, 8) =~= cells.subrange(0, 8 * r + 8));
    }
}

/// The placement that is written is read back as it was.
pub proof fn lemma_placement_round_trip(cells: Seq<char>)
    requires
        cells.len() == 64,
        forall|i: int| 0 <= i < 64 ==> spec_is_piece_letter(#[trigger] cells[i]) || cells[i] == ' ',
    ensures
        spec_parse_placement(spec_emit_rows(cells, 7)) == Some(cells),
{
    lemma_rows_round_trip(cells, 7);
    assert(cells.subrange(0, 64) =~= cells);
}

/// The text of a row is a field.
proof fn lemma_row_is_field(row: Seq<char>, c: int, count: int)
    requires
        row.len() == 8,
        0 <= count <= c <= 8,
        forall|i: int| 0 <= i < 8 ==> spec_is_piece_letter(#[trigger] row[i]) || row[i] == ' ',
    ensures
        forall|i: int|
            0 <= i < spec_emit_row(row, c, count).len() ==> !spec_is_space(
                #[trigger] spec_emit_row(row, c, count)[i],
            ),
        c < 8 || count > 0 ==> spec_emit_row(row, c, count).len() > 0,
    decreases 8 - c,
{
    let text = spec_emit_row(row, c, count);
    let pending = if count != 0 {
        seq![spec_digit(count)]
    } else {
        Seq::<char>::empty()
    };
    assert(count != 0 ==> !spec_is_space(spec_digit(count)));
    if c < 8 {
        if row[c] != ' ' {
            lemma_row_is_field(row, c + 1, 0);
            let rest = spec_emit_row(row, c + 1, 0);
            assert(text == pending + seq![row[c]] + rest);
            assert(spec_is_piece_letter(row[c]));
            assert(!spec_is_space(row[c]));
            assert forall|i: int| 0 <= i < text.len() implies !spec_is_space(#[trigger] text[i]) by {
                if i < pending.len() {
                    assert(text[i] == pending[i]);
                } else if i == pending.len() {
                    assert(text[i] == row[c]);
                } else {
                    assert(text[i] == rest[i - pending.len() - 1]);
                }
            }
        } else {
            lemma_row_is_field(row, c + 1, count + 1);
        }
    } else {
        assert(text == pending);
    }
}

/// The text of a placement is a field.
proof fn lemma_rows_are_field(cells: Seq<char>, r: int)
    requires
        cells.len() == 64,
        0 <= r <= 7,
        forall|i: int| 0 <= i < 64 ==> spec_is_piece_letter(#[trigger] cells[i]) || cells[i] == ' ',
    ensures
        spec_is_field(spec_emit_rows(cells, r)),
    decreases r,
{
    let row = cells.subrange(8 * r, 8 * r + 8);
    assert forall|i: int| 0 <= i < 8 implies spec_is_piece_letter(#[trigger] row[i]) || row[i]
        == ' ' by {
        assert(row[i] == cells[8 * r + i]);
    }
    lemma_row_is_field(row, 0, 0);
    if r > 0 {
        lemma_rows_are_field(cells, r - 1);
    }
}

/// The digits of a number are digits, and they stand for the number.
pub proof fn lemma_decimal_round_trip(n: int)
    requires
        0 <= n,
    ensures
        spec_decimal(n).len() > 0,
        spec_is_digits(spec_decimal(n)),
        spec_decimal_value(spec_decimal(n)) == n,
    decreases n,
{
    if n < 10 {
        let text = seq![spec_digit(n)];
        assert(text.drop_last() =~= Seq::<char>::empty());
        assert(spec_decimal_value(text.drop_last()) == 0);
    } else {
        lemma_decimal_round_trip(n / 10);
        let text = spec_decimal(n / 10) + seq![spec_digit(n % 10)];
        assert(text.drop_last() =~= spec_decimal(n / 10));
    }
}

/// Where a field begins and ends that stands in a text at a given place,
/// with white space or the end of the text behind it.
proof fn lemma_field_at(text: Seq<char>, from: int, part: Seq<char>)
    requires
        spec_is_field(part),
        0 <= from,
        from + part.len() <= text.len(),
        text.subrange(from, from + part.len()) == part,
        from + part.len() == text.len() || spec_is_space(text[from + part.len()]),
    ensures
        spec_skip_spaces(text, from) == from,
        spec_field_end(text, from) == from + part.len(),
{
    assert(text[from] == part[0]);
    lemma_field_runs(text, from, part, 0);
}

/// From any place in a field the field runs on to its end.
proof fn lemma_field_runs(text: Seq<char>, from: int, part: Seq<char>, k: int)
    requires
        spec_is_field(part),
        0 <= from,
        0 <= k <= part.len(),
        from + part.len() <= text.len(),
        text.subrange(from, from + part.len()) == part,
        from + part.len() == text.len() || spec_is_space(text[from + part.len()]),
    ensures
        spec_field_end(text, from + k) == from + part.len(),
    decreases part.len() - k,
{
    if k < part.len() {
        assert(text[from + k] == part[k]);
        lemma_field_runs(text, from, part, k + 1);
    }
}

/// One blank before a field is skipped.
proof fn lemma_skip_blank(text: Seq<char>, at: int)
    requires
        0 <= at,
        at + 1 < text.len(),
        text[at] == ' ',
        !spec_is_space(text[at + 1]),
    ensures
        spec_skip_spaces(text, at) == at + 1,
{
    assert(spec_skip_spaces(text, at + 1) == at + 1);
}

/// The six fields of a text made of six fields with one blank between
/// them.
pub proof fn lemma_fields_of_text(
    a: Seq<char>,
    b: Seq<char>,
    c: Seq<char>,
    d: Seq<char>,
    e: Seq<char>,
    f: Seq<char>,
)
    requires
        spec_is_field(a),
        spec_is_field(b),
        spec_is_field(c),
        spec_is_field(d),
        spec_is_field(e),
        spec_is_field(f),
    ensures
        ({
            let text = a + seq![' '] + b + seq![' '] + c + seq![' '] + d + seq![' '] + e + seq![' ']
                + f;
            &&& spec_field(text, 0) == a
            &&& spec_field(text, 1) == b
            &&& spec_field(text, 2) == c
            &&& spec_field(text, 3) == d
            &&& spec_field(text, 4) == e
            &&& spec_field(text, 5) == f
        }),
{
    let text = a + seq![' '] + b + seq![' '] + c + seq![' '] + d + seq![' '] + e + seq![' '] + f;
    let a0 = 0int;
    let a1 = a0 + a.len();
    let b0 = a1 + 1;
    let b1 = b0 + b.len();
    let c0 = b1 + 1;
    let c1 = c0 + c.len();
    let d0 = c1 + 1;
    let d1 = d0 + d.len();
    let e0 = d1 + 1;
    let e1 = e0 + e.len();
    let f0 = e1 + 1;
    let f1 = f0 + f.len();
    assert(text.len() == f1);
    assert(text.subrange(a0, a1) =~= a);
    assert(text.subrange(b0, b1) =~= b);
    assert(text.subrange(c0, c1) =~= c);
    assert(text.subrange(d0, d1) =~= d);
    assert(text.subrange(e0, e1) =~= e);
    assert(text.subrange(f0, f1) =~= f);
    assert(text[a1] == ' ' && text[b1] == ' ' && text[c1] == ' ' && text[d1] == ' ' && text[e1]
        == ' ');
    assert(text[b0] == b[0] && text[c0] == c[0] && text[d0] == d[0] && text[e0] == e[0] && text[f0]
        == f[0]);
    lemma_field_at(text, a0, a);
    lemma_skip_blank(text, a1);
    lemma_field_at(text, b0, b);
    lemma_skip_blank(text, b1);
    lemma_field_at(text, c0, c);
    lemma_skip_blank(text, c1);
    lemma_field_at(text, d0, d);
    lemma_skip_blank(text, d1);
    lemma_field_at(text, e0, e);
    lemma_skip_blank(text, e1);
    lemma_field_at(text, f0, f);
    assert(spec_field_bounds(text, 0) == (a0, a1));
    assert(spec_field_bounds(text, 1) == (b0, b1));
    assert(spec_field_bounds(text, 2) == (c0, c1));
    assert(spec_field_bounds(text, 3) == (d0, d1));
    assert(spec_field_bounds(text, 4) == (e0, e1));
    assert(spec_field_bounds(text, 5) == (f0, f1));
}

/// Whether the character of a square says what the boards hold there:
/// the letter of the one kind of piece on the square and of its color, or
/// a blank where the square holds nothing.
pub open spec fn spec_cell_agrees(board: Board, i: int) -> bool {
    match board.spec_piece_at(i) {
        Some(kind) => has_square(board.spec_piece_board(kind), i) && (forall|other: Piece|
            other != kind ==> !has_square(#[trigger] board.spec_piece_board(other), i))
            && board.spec_cells()[i] == spec_piece_letter(
            kind,
            if has_square(board.white_pieces, i) {
                Color::White
            } else {
                Color::Black
            },
        ) && (has_square(board.white_pieces, i) || has_square(board.black_pieces, i)),
        None => board.spec_cells()[i] == ' ' && !has_square(board.white_pieces, i) && !has_square(
            board.black_pieces,
            i,
        ) && forall|other: Piece| !has_square(#[trigger] board.spec_piece_board(other), i),
    }
}

/// In a state whose boards agree the character of each square says what
/// the boards hold there.
pub proof fn lemma_cell_agrees(board: Board, i: int)
    requires
        spec_placement_squares_ok(board),
        0 <= i < 64,
    ensures
        spec_cell_agrees(board, i),
{
    match board.spec_piece_at(i) {
        Some(kind) => {
            assert(has_square(board.spec_piece_board(kind), i));
            assert forall|other: Piece| other != kind implies !has_square(
                #[trigger] board.spec_piece_board(other),
                i,
            ) by {
                assert(!(has_square(board.spec_piece_board(other), i) && has_square(
                    board.spec_piece_board(kind),
                    i,
                )));
            }
        },
        None => {
            assert forall|other: Piece| !has_square(#[trigger] board.spec_piece_board(other), i) by {
                match other {
                    Piece::Pawn => {},
                    Piece::Knight => {},
                    Piece::Bishop => {},
                    Piece::Rook => {},
                    Piece::Queen => {},
                    Piece::King => {},
                }
            }
        },
    }
}

/// The squares of a state whose boards agree show piece letters and
/// blanks, and the boards are those of the squares that show their
/// letters.
pub proof fn lemma_cells_round_trip(board: Board)
    requires
        board.spec_placement_ok(),
    ensures
        forall|i: int|
            0 <= i < 64 ==> spec_is_piece_letter(#[trigger] board.spec_cells()[i])
                || board.spec_cells()[i] == ' ',
        ({
            let cells = board.spec_cells();
            let read = spec_board_of_cells(cells, Color::White, Seq::empty(), 0, 0, 0);
            &&& read.pawns == board.pawns
            &&& read.knights == board.knights
            &&& read.bishops == board.bishops
            &&& read.rooks == board.rooks
            &&& read.queens == board.queens
            &&& read.kings == board.kings
            &&& read.white_pieces == board.white_pieces
            &&& read.black_pieces == board.black_pieces
        }),
{
    let cells = board.spec_cells();
    lemma_placement_squares(board);
    assert forall|i: int| 0 <= i < 64 implies spec_is_piece_letter(
        #[trigger] board.spec_cells()[i],
    ) || board.spec_cells()[i] == ' ' by {
        lemma_cell_agrees(board, i);
    }
    assert forall|i: int| 0 <= i < 64 implies (has_square(board.pawns, i) <==> cells[i] == 'P'
        || cells[i] == 'p') by {
        assert(board.spec_piece_board(Piece::Pawn) == board.pawns);
        lemma_cell_agrees(board, i);
    }
    lemma_board_is(board.pawns, |s: int| cells[s] == 'P' || cells[s] == 'p');
    assert forall|i: int| 0 <= i < 64 implies (has_square(board.knights, i) <==> cells[i] == 'N'
        || cells[i] == 'n') by {
        assert(board.spec_piece_board(Piece::Knight) == board.knights);
        lemma_cell_agrees(board, i);
    }
    lemma_board_is(board.knights, |s: int| cells[s] == 'N' || cells[s] == 'n');
    assert forall|i: int| 0 <= i < 64 implies (has_square(board.bishops, i) <==> cells[i] == 'B'
        || cells[i] == 'b') by {
        assert(board.spec_piece_board(Piece::Bishop) == board.bishops);
        lemma_cell_agrees(board, i);
    }
    lemma_board_is(board.bishops, |s: int| cells[s] == 'B' || cells[s] == 'b');
    assert forall|i: int| 0 <= i < 64 implies (has_square(board.rooks, i) <==> cells[i] == 'R'
        || cells[i] == 'r') by {
        assert(board.spec_piece_board(Piece::Rook) == board.rooks);
        lemma_cell_agrees(board, i);
    }
    lemma_board_is(board.rooks, |s: int| cells[s] == 'R' || cells[s] == 'r');
    assert forall|i: int| 0 <= i < 64 implies (has_square(board.queens, i) <==> cells[i] == 'Q'
        || cells[i] == 'q') by {
        assert(board.spec_piece_board(Piece::Queen) == board.queens);
        lemma_cell_agrees(board, i);
    }
    lemma_board_is(board.queens, |s: int| cells[s] == 'Q' || cells[s] == 'q');
    assert forall|i: int| 0 <= i < 64 implies (has_square(board.kings, i) <==> cells[i] == 'K'
        || cells[i] == 'k') by {
        assert(board.spec_piece_board(Piece::King) == board.kings);
        lemma_cell_agrees(board, i);
    }
    lemma_board_is(board.kings, |s: int| cells[s] == 'K' || cells[s] == 'k');
    assert forall|i: int| 0 <= i < 64 implies (has_square(board.white_pieces, i)
        <==> spec_is_white_letter(cells[i])) by {
        assert(!(has_square(board.white_pieces, i) && has_square(board.black_pieces, i)));
        lemma_cell_agrees(board, i);
    }
    lemma_board_is(board.white_pieces, |s: int| spec_is_white_letter(cells[s]));
    assert forall|i: int| 0 <= i < 64 implies (has_square(board.black_pieces, i) <==> (
    spec_is_piece_letter(cells[i]) && !spec_is_white_letter(cells[i]))) by {
        assert(!(has_square(board.white_pieces, i) && has_square(board.black_pieces, i)));
        lemma_cell_agrees(board, i);
    }
    lemma_board_is(
        board.black_pieces,
        |s: int| spec_is_piece_letter(cells[s]) && !spec_is_white_letter(cells[s]),
    );
}

/// The castling rights that are written are read back as they were.
pub proof fn lemma_castling_round_trip(board: Board)
    ensures
        spec_is_field(spec_emit_castling(board)),
        spec_is_castling(spec_emit_castling(board)),
        spec_emit_castling(board).contains('K') == board.is_white_castle_short,
        spec_emit_castling(board).contains('Q') == board.is_white_castle_long,
        spec_emit_castling(board).contains('k') == board.is_black_castle_short,
        spec_emit_castling(board).contains('q') == board.is_black_castle_long,
{
    let a = if board.is_white_castle_short {
        seq!['K']
    } else {
        Seq::<char>::empty()
    };
    let b = if board.is_white_castle_long {
        seq!['Q']
    } else {
        Seq::<char>::empty()
    };
    let c = if board.is_black_castle_short {
        seq!['k']
    } else {
        Seq::<char>::empty()
    };
    let d = if board.is_black_castle_long {
        seq!['q']
    } else {
        Seq::<char>::empty()
    };
    let rights = a + b + c + d;
    let text = spec_emit_castling(board);
    assert forall|x: char|
        rights.contains(x) <==> (x == 'K' && board.is_white_castle_short) || (x == 'Q'
            && board.is_white_castle_long) || (x == 'k' && board.is_black_castle_short) || (x
            == 'q' && board.is_black_castle_long) by {
        super::validity::lemma_contains_add(a, b, x);
        super::validity::lemma_contains_add(a + b, c, x);
        super::validity::lemma_contains_add(a + b + c, d, x);
        if board.is_white_castle_short {
            assert(a[0] == 'K');
        }
        if board.is_white_castle_long {
            assert(b[0] == 'Q');
        }
        if board.is_black_castle_short {
            assert(c[0] == 'k');
        }
        if board.is_black_castle_long {
            assert(d[0] == 'q');
        }
        if a.contains(x) {
            let k = choose|k: int| 0 <= k < a.len() && a[k] == x;
        }
        if b.contains(x) {
            let k = choose|k: int| 0 <= k < b.len() && b[k] == x;
        }
        if c.contains(x) {
            let k = choose|k: int| 0 <= k < c.len() && c[k] == x;
        }
        if d.contains(x) {
            let k = choose|k: int| 0 <= k < d.len() && d[k] == x;
        }
    }
    if rights.len() == 0 {
        assert(text == seq!['-']);
        assert forall|x: char| x != '-' implies !text.contains(x) by {
            if text.contains(x) {
                let k = choose|k: int| 0 <= k < text.len() && text[k] == x;
            }
        }
        assert(text[0] == '-');
    } else {
        assert(text == rights);
        assert forall|i: int| 0 <= i < text.len() implies (text[i] == 'K' || text[i] == 'Q'
            || text[i] == 'k' || text[i] == 'q') && !spec_is_space(#[trigger] text[i]) by {
            assert(rights.contains(text[i]));
        }
        assert(text != seq!['-']) by {
            if text == seq!['-'] {
                assert(text[0] == '-');
            }
        }
    }
}

/// The en-passant target that is written is read back as it was, where it
/// is one square or none.
pub proof fn lemma_en_passant_round_trip(board: Board)
    requires
        board.ep_target == 0 || board.ep_target == spec_mask(u64_leading_zeros(board.ep_target)),
    ensures
        spec_is_field(spec_emit_en_passant(board)),
        spec_parse_en_passant(spec_emit_en_passant(board)) == Some(board.ep_target),
{
    let text = spec_emit_en_passant(board);
    if board.ep_target == 0 {
        assert(text[0] == '-');
    } else {
        lemma_leading_zeros(board.ep_target);
        let e = u64_leading_zeros(board.ep_target);
        let position = Position::spec_index(e);
        assert(text == spec_algebraic(position));
        assert(text.len() == 2);
        assert(text != seq!['-']) by {
            if text == seq!['-'] {
                assert(text.len() == 1);
            }
        }
        assert(spec_parse_algebraic(text) == Some(position));
        assert(position.spec_to_index() == e);
    }
}

/// A state whose boards agree and whose en-passant target is one square
/// or none is read back from its text as it was.
pub proof fn lemma_fen_round_trip(board: Board)
    requires
        board.spec_placement_ok(),
        board.ep_target == 0 || board.ep_target == spec_mask(u64_leading_zeros(board.ep_target)),
    ensures
        spec_parse_fen(spec_emit_fen(board)) == Some(board),
{
    let cells = board.spec_cells();
    let placement = spec_emit_rows(cells, 7);
    let turn = seq![
        if board.turn == Color::White {
            'w'
        } else {
            'b'
        },
    ];
    let castling = spec_emit_castling(board);
    let target = spec_emit_en_passant(board);
    let fullmove = spec_decimal(board.fullmove_clock as int);
    let halfmove = spec_decimal(board.halfmove_clock as int);
    lemma_cells_round_trip(board);
    lemma_placement_round_trip(cells);
    lemma_rows_are_field(cells, 7);
    lemma_castling_round_trip(board);
    lemma_en_passant_round_trip(board);
    lemma_decimal_round_trip(board.fullmove_clock as int);
    lemma_decimal_round_trip(board.halfmove_clock as int);
    assert(spec_is_field(turn)) by {
        assert(turn[0] == 'w' || turn[0] == 'b');
    }
    assert(spec_is_field(fullmove)) by {
        assert forall|i: int| 0 <= i < fullmove.len() implies !spec_is_space(
            #[trigger] fullmove[i],
        ) by {
            assert('0' <= fullmove[i] && fullmove[i] <= '9');
        }
    }
    assert(spec_is_field(halfmove)) by {
        assert forall|i: int| 0 <= i < halfmove.len() implies !spec_is_space(
            #[trigger] halfmove[i],
        ) by {
            assert('0' <= halfmove[i] && halfmove[i] <= '9');
        }
    }
    lemma_fields_of_text(placement, turn, castling, target, fullmove, halfmove);
    let text = spec_emit_fen(board);
    assert(text == placement + seq![' '] + turn + seq![' '] + castling + seq![' '] + target + seq![
        ' ',
    ] + fullmove + seq![' '] + halfmove);
    assert(spec_parse_turn(turn) == Some(board.turn)) by {
        if board.turn == Color::White {
            assert(turn =~= seq!['w']);
        } else {
            assert(turn =~= seq!['b']);
            assert(turn != seq!['w']) by {
                if turn == seq!['w'] {
                    assert(turn[0] == 'w');
                }
            }
        }
    }
    assert(spec_parse_clock(fullmove) == Some(board.fullmove_clock));
    assert(spec_parse_clock(halfmove) == Some(board.halfmove_clock));
    let read = spec_board_of_cells(
        cells,
        board.turn,
        castling,
        board.ep_target,
        board.fullmove_clock,
        board.halfmove_clock,
    );
    let boards = spec_board_of_cells(cells, Color::White, Seq::empty(), 0, 0, 0);
    assert(read.pawns == boards.pawns && read.knights == boards.knights && read.bishops
        == boards.bishops && read.rooks == boards.rooks && read.queens == boards.queens
        && read.kings == boards.kings && read.white_pieces == boards.white_pieces
        && read.black_pieces == boards.black_pieces);
    assert(read == board);
}

} // verus!
