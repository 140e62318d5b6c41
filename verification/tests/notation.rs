use chess_engine::chess::board::Board;
use chess_engine::chess::board::Castle;
use chess_engine::chess::cmove::Move;
use chess_engine::chess::color::Color;
use chess_engine::chess::fen::is_piece_letter;
use chess_engine::chess::fen::is_space;
use chess_engine::chess::fen::parse_algebraic;
use chess_engine::chess::fen::parse_fen;
use chess_engine::chess::fen::piece_of_letter;
use chess_engine::chess::fen::STARTING_BOARD;
use chess_engine::chess::piece::fen_to_piece;
use chess_engine::chess::piece::piece_of_case;
use chess_engine::chess::piece::piece_to_fen;
use chess_engine::chess::piece::Piece;
use chess_engine::chess::position::Position;

#[test]
fn starting_board_is_read() {
    let board = Board::new(STARTING_BOARD);
    assert_eq!(board.pawns, 0x00ff_0000_0000_ff00);
    assert_eq!(board.knights, 0x4200_0000_0000_0042);
    assert_eq!(board.bishops, 0x2400_0000_0000_0024);
    assert_eq!(board.rooks, 0x8100_0000_0000_0081);
    assert_eq!(board.queens, 0x1000_0000_0000_0010);
    assert_eq!(board.kings, 0x0800_0000_0000_0008);
    assert_eq!(board.white_pieces, 0x0000_0000_0000_ffff);
    assert_eq!(board.black_pieces, 0xffff_0000_0000_0000);
    assert_eq!(board.ep_target, 0);
    assert_eq!(board.turn, Color::White);
    assert!(board.is_white_castle_short);
    assert!(board.is_white_castle_long);
    assert!(board.is_black_castle_short);
    assert!(board.is_black_castle_long);
    assert!(board.is_placement_ok());
}

#[test]
fn fifth_field_is_the_fullmove_clock() {
    let board = Board::new("8/8/8/8/8/8/8/K6k b - - 12 345");
    assert_eq!(board.fullmove_clock, 12);
    assert_eq!(board.halfmove_clock, 345);
    assert_eq!(board.turn, Color::Black);
    assert_eq!(board.get_fen(), "8/8/8/8/8/8/8/K6k b - - 12 345");
}

#[test]
fn text_is_written_back_as_it_was_read() {
    let texts = [
        "rnbqkbnr/pppppppp/8/8/8/8/PPPPPPPP/RNBQKBNR w KQkq - 0 1",
        "r3k2r/p1ppqpb1/bn2pnp1/3PN3/1p2P3/2N2Q1p/PPPBBPPP/R3K2R w KQkq - 0 0",
        "8/2p5/3p4/KP5r/1R3p1k/8/4P1P1/8 w - - 0 0",
        "r2q1rk1/pP1p2pp/Q4n2/bbp1p3/Np6/1B3NBn/pPPP1PPP/R3K2R b KQ - 0 1",
        "rnbqkbnr/ppp1pppp/8/3pP3/8/8/PPPP1PPP/RNBQKBNR w Kq d5 65535 2",
        "4k3/8/8/8/8/8/8/4K3 b k a1 7 0",
    ];
    for text in texts {
        let board = Board::new(text);
        assert_eq!(board.get_fen(), text);
        assert_eq!(Board::new(&board.get_fen()), board);
    }
}

#[test]
fn white_space_between_fields_is_skipped() {
    let a = Board::new("  8/8/8/8/8/8/8/K6k \t w   -  -  3\n4  ");
    let b = Board::new("8/8/8/8/8/8/8/K6k w - - 3 4");
    assert_eq!(a, b);
    let c = Board::new("8/8/8/8/8/8/8/K6k w - - 3 4 and more");
    assert_eq!(c, b);
}

#[test]
fn castling_letters_may_come_in_any_order() {
    let board = Board::new("r3k2r/8/8/8/8/8/8/R3K2R w qK - 0 1");
    assert!(board.get_castle(Castle::Short, Color::White));
    assert!(!board.get_castle(Castle::Long, Color::White));
    assert!(!board.get_castle(Castle::Short, Color::Black));
    assert!(board.get_castle(Castle::Long, Color::Black));
    assert_eq!(board.get_fen(), "r3k2r/8/8/8/8/8/8/R3K2R w Kq - 0 1");
}

#[test]
fn en_passant_field_names_one_square() {
    let board = Board::new("8/8/8/8/8/8/8/K6k w - e3 0 1");
    assert_eq!(board.ep_target, 1u64 << (63 - 44));
    let board = Board::new("8/8/8/8/8/8/8/K6k w - a8 0 1");
    assert_eq!(board.ep_target, 1u64 << 63);
}

#[test]
fn text_that_describes_no_state_is_refused() {
    let bad = [
        "",
        "8/8/8/8/8/8/8/8",
        "8/8/8/8/8/8/8/8 w - -",
        "8/8/8/8/8/8/8/8 w - - 0",
        "8/8/8/8/8/8/8 w - - 0 1",
        "8/8/8/8/8/8/8/8/8 w - - 0 1",
        "8/8/8/8/8/8/8/7 w - - 0 1",
        "8/8/8/8/8/8/8/9 w - - 0 1",
        "8/8/8/8/8/8/8/44p w - - 0 1",
        "8/8/8/8/8/8/8/7x w - - 0 1",
        "8/8/8/8/8/8/8/07K w - - 0 1",
        "8/8/8/8/8/8/8/8 x - - 0 1",
        "8/8/8/8/8/8/8/8 W - - 0 1",
        "8/8/8/8/8/8/8/8 w KX - 0 1",
        "8/8/8/8/8/8/8/8 w -K - 0 1",
        "8/8/8/8/8/8/8/8 w - e9 0 1",
        "8/8/8/8/8/8/8/8 w - i3 0 1",
        "8/8/8/8/8/8/8/8 w - e 0 1",
        "8/8/8/8/8/8/8/8 w - e33 0 1",
        "8/8/8/8/8/8/8/8 w - - x 1",
        "8/8/8/8/8/8/8/8 w - - 0 -1",
        "8/8/8/8/8/8/8/8 w - - 65536 1",
        "8/8/8/8/8/8/8/8 w - - 0 99999999999999999999",
    ];
    for text in bad {
        assert!(Board::parse(text).is_none(), "{}", text);
        assert!(parse_fen(text).is_none(), "{}", text);
    }
    assert!(Board::parse("8/8/8/8/8/8/8/8 w - - 65535 007").is_some());
}

#[test]
fn piece_letters_pair_kinds_and_colors() {
    let kinds =
        [Piece::Pawn, Piece::Knight, Piece::Bishop, Piece::Rook, Piece::Queen, Piece::King];
    let white = ['P', 'N', 'B', 'R', 'Q', 'K'];
    let black = ['p', 'n', 'b', 'r', 'q', 'k'];
    for i in 0..6 {
        assert_eq!(piece_to_fen(kinds[i], Color::White), white[i]);
        assert_eq!(piece_to_fen(kinds[i], Color::Black), black[i]);
        assert_eq!(fen_to_piece(white[i]), (kinds[i], Color::White));
        assert_eq!(fen_to_piece(black[i]), (kinds[i], Color::Black));
        assert_eq!(piece_of_letter(white[i]), (kinds[i], Color::White));
        assert_eq!(piece_of_letter(black[i]), (kinds[i], Color::Black));
        assert!(is_piece_letter(white[i]) && is_piece_letter(black[i]));
    }
    assert!(!is_piece_letter('x') && !is_piece_letter('1') && !is_piece_letter(' '));
}

#[test]
fn a_letter_that_names_no_piece_is_read_as_a_king() {
    assert_eq!(fen_to_piece('x'), (Piece::King, Color::Black));
    assert_eq!(fen_to_piece('X'), (Piece::King, Color::White));
    assert_eq!(fen_to_piece('!'), (Piece::King, Color::Black));
    assert_eq!(piece_of_case('q', true), (Piece::Queen, Color::White));
    assert_eq!(piece_of_case('Q', false), (Piece::Queen, Color::Black));
}

#[test]
fn white_space_is_told_from_other_characters() {
    for c in [' ', '\t', '\n', '\r', '\u{b}', '\u{c}', '\u{85}', '\u{a0}', '\u{3000}', '\u{2003}'] {
        assert!(is_space(c));
        assert!(c.is_whitespace());
    }
    for c in ['a', '0', '-', '/', '\u{200b}', '\u{1f}'] {
        assert!(!is_space(c));
        assert!(!c.is_whitespace());
    }
    for n in 0..0x3100u32 {
        if let Some(c) = char::from_u32(n) {
            assert_eq!(is_space(c), c.is_whitespace());
        }
    }
}

#[test]
fn algebraic_squares_are_parsed() {
    assert_eq!(parse_algebraic(&vec!['e', '4']), Some(Position::new(4, 4)));
    assert_eq!(parse_algebraic(&vec!['a', '1']), Some(Position::new(7, 0)));
    assert_eq!(parse_algebraic(&vec!['h', '8']), Some(Position::new(0, 7)));
    assert_eq!(parse_algebraic(&vec!['i', '1']), None);
    assert_eq!(parse_algebraic(&vec!['a', '0']), None);
    assert_eq!(parse_algebraic(&vec!['a', '9']), None);
    assert_eq!(parse_algebraic(&vec!['a']), None);
    assert_eq!(parse_algebraic(&vec!['a', '1', '1']), None);
    assert_eq!(parse_algebraic(&vec!['-']), None);
}

#[test]
fn characters_and_state_of_the_squares() {
    let board = Board::new(STARTING_BOARD);
    let chars = board.get_char_representation();
    assert_eq!(chars.len(), 8);
    let rows: Vec<String> = chars.iter().map(|r| r.iter().collect()).collect();
    assert_eq!(
        rows,
        vec!["rnbqkbnr", "pppppppp", "        ", "        ", "        ", "        ", "PPPPPPPP", "RNBQKBNR"]
    );
    let state = board.get_state();
    assert_eq!(state[0][0], (Some(Piece::Rook), Some(Color::Black)));
    assert_eq!(state[0][4], (Some(Piece::King), Some(Color::Black)));
    assert_eq!(state[1][3], (Some(Piece::Pawn), Some(Color::Black)));
    assert_eq!(state[4][4], (None, None));
    assert_eq!(state[6][0], (Some(Piece::Pawn), Some(Color::White)));
    assert_eq!(state[7][3], (Some(Piece::Queen), Some(Color::White)));
    assert_eq!(state[7][6], (Some(Piece::Knight), Some(Color::White)));
}

#[test]
fn a_piece_of_no_color_shows_as_an_exclamation_mark() {
    let mut board = Board::new("8/8/8/8/8/8/8/K6k w - - 0 1");
    board.set_piece_board(Piece::Queen, 1u64 << 63);
    assert!(!board.is_placement_ok());
    assert_eq!(board.get_char_representation()[0][0], '!');
    assert_eq!(board.get_state()[0][0], (Some(Piece::Queen), Some(Color::Black)));
    // the last kind from pawn to king shows where two kinds share a square
    board.set_piece_board(Piece::Pawn, 1);
    assert_eq!(board.get_char_representation()[7][7], 'k');
}

#[test]
fn picture_of_the_starting_board() {
    let board = Board::new(STARTING_BOARD);
    let expected = "rnbqkbnr/pppppppp/8/8/8/8/PPPPPPPP/RNBQKBNR w KQkq - 0 1\n\
---------------------------------\n\
| r | n | b | q | k | b | n | r |\n\
|---|---|---|---|---|---|---|---|\n\
| p | p | p | p | p | p | p | p |\n\
|---|---|---|---|---|---|---|---|\n\
|   |   |   |   |   |   |   |   |\n\
|---|---|---|---|---|---|---|---|\n\
|   |   |   |   |   |   |   |   |\n\
|---|---|---|---|---|---|---|---|\n\
|   |   |   |   |   |   |   |   |\n\
|---|---|---|---|---|---|---|---|\n\
|   |   |   |   |   |   |   |   |\n\
|---|---|---|---|---|---|---|---|\n\
| P | P | P | P | P | P | P | P |\n\
|---|---|---|---|---|---|---|---|\n\
| R | N | B | Q | K | B | N | R |\n\
---------------------------------";
    assert_eq!(board.to_string(), expected);
}

#[test]
fn boards_are_read_and_replaced_by_kind_and_color() {
    let mut board = Board::new(STARTING_BOARD);
    assert_eq!(board.get_piece_board(Piece::Pawn), 0x00ff_0000_0000_ff00);
    assert_eq!(board.get_pieces(Color::White), 0xffff);
    assert_eq!(board.get_color_piece_board(Piece::Pawn, Color::White), 0xff00);
    assert_eq!(board.get_color_piece_board(Piece::King, Color::Black), 0x0800_0000_0000_0000);
    board.set_piece_board(Piece::Knight, 5);
    assert_eq!(board.knights, 5);
    board.set_color_board(Color::Black, 9);
    assert_eq!(board.black_pieces, 9);
    assert_eq!(board.white_pieces, 0xffff);
    board.set_castle(Castle::Long, Color::Black, false);
    assert!(!board.get_castle(Castle::Long, Color::Black));
    assert!(board.get_castle(Castle::Short, Color::Black));
    board.set_castle(Castle::Long, Color::Black, true);
    assert!(board.is_black_castle_long);
}

#[test]
fn moves_have_a_text_and_promotions() {
    let m = Move::new(Position::new(6, 4), Position::new(4, 4), Piece::Pawn, None);
    assert_eq!(m.to_string(), "Pawn:e2->e4");
    let n = Move::new(Position::new(7, 6), Position::new(5, 5), Piece::Knight, None);
    assert_eq!(n.to_string(), "Knight:g1->f3");
    assert_eq!(Move::new(Position::new(0, 0), Position::new(7, 7), Piece::Bishop, None).to_string(), "Bishop:a8->h1");
    assert_eq!(Move::new(Position::new(0, 0), Position::new(0, 7), Piece::Rook, None).to_string(), "Rook:a8->h8");
    assert_eq!(Move::new(Position::new(0, 3), Position::new(4, 7), Piece::Queen, None).to_string(), "Queen:d8->h4");
    assert_eq!(Move::new(Position::new(7, 4), Position::new(7, 6), Piece::King, None).to_string(), "King:e1->g1");
    let start = Position::new(1, 0);
    let end = Position::new(0, 0);
    let promotions = Move::make_promotions(start, end);
    assert_eq!(
        promotions,
        vec![
            Move::new(start, end, Piece::Pawn, Some(Piece::Queen)),
            Move::new(start, end, Piece::Pawn, Some(Piece::Knight)),
            Move::new(start, end, Piece::Pawn, Some(Piece::Rook)),
            Move::new(start, end, Piece::Pawn, Some(Piece::Bishop)),
        ]
    );
    assert_ne!(promotions[0], promotions[1]);
}
