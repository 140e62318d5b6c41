use chess_engine::chess::board::Board;
use chess_engine::chess::board::Castle;
use chess_engine::chess::cmove::Move;
use chess_engine::chess::color::Color;
use chess_engine::chess::fen::STARTING_BOARD;
use chess_engine::chess::move_api::MoveAPI;
use chess_engine::chess::move_executor::MoveExecutor;
use chess_engine::chess::move_generator::MoveGenerator;
use chess_engine::chess::piece::Piece;
use chess_engine::chess::position::algebraic_to_position;
use chess_engine::chess::position::Position;

fn sq(name: &str) -> Position {
    algebraic_to_position(&name.to_string())
}

fn mv(piece: Piece, start: &str, end: &str) -> Move {
    Move::new(sq(start), sq(end), piece, None)
}

fn after(fen: &str, m: Move) -> Board {
    let mut executor = MoveExecutor::new(Board::new(fen));
    executor.exec_move(m);
    *executor.get_board_ref()
}

#[test]
fn twenty_moves_from_the_start() {
    let generator = MoveGenerator::new();
    let board = Board::new(STARTING_BOARD);
    let moves = generator.get_moves(&board);
    assert_eq!(moves.len(), 20);
    // pawns first, from a2 to h2, each with its advance of one rank first
    assert_eq!(moves[0], mv(Piece::Pawn, "a2", "a4"));
    assert_eq!(moves[1], mv(Piece::Pawn, "a2", "a3"));
    assert_eq!(moves[15], mv(Piece::Pawn, "h2", "h3"));
    assert_eq!(moves[16], mv(Piece::Knight, "b1", "a3"));
    assert_eq!(moves[19], mv(Piece::Knight, "g1", "h3"));
    assert_eq!(generator.get_moves_color(&board, Color::Black).len(), 20);
    assert_eq!(generator.get_move_count_color(&board, Color::White), 20);
    assert_eq!(generator.get_piece_moves(&board, Piece::Knight, Color::White).len(), 4);
    assert_eq!(generator.get_piece_moves(&board, Piece::Queen, Color::White).len(), 0);
}

#[test]
fn a_blocked_pawn_does_not_advance() {
    let generator = MoveGenerator::new();
    // a piece right before the pawn blocks both advances
    let board = Board::new("4k3/8/8/8/8/4n3/4P3/4K3 w - - 0 1");
    assert!(generator.get_piece_moves(&board, Piece::Pawn, Color::White).is_empty());
    // a piece two squares before it blocks the advance of two ranks alone
    let board = Board::new("4k3/8/8/8/4n3/8/4P3/4K3 w - - 0 1");
    assert_eq!(
        generator.get_piece_moves(&board, Piece::Pawn, Color::White),
        vec![mv(Piece::Pawn, "e2", "e3")]
    );
    let board = Board::new("4k3/4p3/8/4N3/8/8/8/4K3 b - - 0 1");
    assert_eq!(
        generator.get_piece_moves(&board, Piece::Pawn, Color::Black),
        vec![mv(Piece::Pawn, "e7", "e6")]
    );
    let board = Board::new("4k3/4p3/4N3/8/8/8/8/4K3 b - - 0 1");
    assert!(generator.get_piece_moves(&board, Piece::Pawn, Color::Black).is_empty());
}

#[test]
fn pawns_capture_diagonally_forward() {
    let generator = MoveGenerator::new();
    let board = Board::new("4k3/8/8/3p1p2/4P3/8/8/4K3 w - - 0 1");
    assert_eq!(
        generator.get_piece_moves(&board, Piece::Pawn, Color::White),
        vec![mv(Piece::Pawn, "e4", "d5"), mv(Piece::Pawn, "e4", "e5"), mv(Piece::Pawn, "e4", "f5")]
    );
    assert_eq!(
        generator.get_piece_moves(&board, Piece::Pawn, Color::Black),
        vec![
            mv(Piece::Pawn, "d5", "d4"),
            mv(Piece::Pawn, "d5", "e4"),
            mv(Piece::Pawn, "f5", "e4"),
            mv(Piece::Pawn, "f5", "f4"),
        ]
    );
}

#[test]
fn sliders_stop_at_the_first_piece() {
    let generator = MoveGenerator::new();
    let board = Board::new("4k3/8/8/8/1p1R2P1/8/8/4K3 w - - 0 1");
    let moves = generator.get_piece_moves(&board, Piece::Rook, Color::White);
    let ends: Vec<String> = moves.iter().map(|m| m.end.to_string()).collect();
    assert_eq!(
        ends,
        vec!["d8", "d7", "d6", "d5", "b4", "c4", "e4", "f4", "d3", "d2", "d1"]
    );
    let board = Board::new("4k3/8/1p6/8/3B4/8/5P2/4K3 w - - 0 1");
    let moves = generator.get_piece_moves(&board, Piece::Bishop, Color::White);
    let ends: Vec<String> = moves.iter().map(|m| m.end.to_string()).collect();
    assert_eq!(ends, vec!["h8", "g7", "b6", "f6", "c5", "e5", "c3", "e3", "b2", "a1"]);
}

#[test]
fn attacks_are_found_from_the_square_that_is_attacked() {
    let generator = MoveGenerator::new();
    let board = Board::new("4k3/8/8/8/1p1R2P1/8/8/4K3 w - - 0 1");
    assert!(generator.is_attacked(&board, Color::White, sq("d8").to_index()));
    assert!(generator.is_attacked(&board, Color::White, sq("b4").to_index()));
    assert!(!generator.is_attacked(&board, Color::White, sq("a4").to_index()));
    assert!(generator.is_attacked(&board, Color::White, sq("f5").to_index()));
    assert!(generator.is_attacked(&board, Color::White, sq("h5").to_index()));
    assert!(!generator.is_attacked(&board, Color::White, sq("g5").to_index()));
    assert!(generator.is_attacked(&board, Color::Black, sq("a3").to_index()));
    assert!(generator.is_attacked(&board, Color::Black, sq("c3").to_index()));
    assert!(!generator.is_attacked(&board, Color::Black, sq("b3").to_index()));
    assert!(generator.is_attacked(&board, Color::Black, sq("d7").to_index()));
    assert!(generator.is_attacked(&board, Color::White, sq("d2").to_index()));
    assert!(!generator.is_attacked_king(&board, Color::White));
    assert!(!generator.is_attacked_king(&board, Color::Black));
    let board = Board::new("4k3/8/8/8/4R3/8/8/4K3 b - - 0 1");
    assert!(generator.is_attacked_king(&board, Color::White));
    let board = Board::new("4k3/8/3N4/8/8/8/8/4K3 b - - 0 1");
    assert!(generator.is_attacked_king(&board, Color::White));
}

#[test]
fn a_king_does_not_step_back_along_the_line_of_a_check() {
    let generator = MoveGenerator::new();
    // the rook on e8 sees through the square that the king leaves
    let board = Board::new("4r1k1/8/8/8/8/8/4K3/8 w - - 0 1");
    let moves = generator.get_piece_moves(&board, Piece::King, Color::White);
    let ends: Vec<String> = moves.iter().map(|m| m.end.to_string()).collect();
    assert_eq!(ends, vec!["d3", "f3", "d2", "f2", "d1", "f1"]);
}

#[test]
fn castles_are_listed_when_they_can_be_made() {
    let generator = MoveGenerator::new();
    let board = Board::new("r3k2r/8/8/8/8/8/8/R3K2R w KQkq - 0 1");
    let moves = generator.get_piece_moves(&board, Piece::King, Color::White);
    assert!(moves.contains(&mv(Piece::King, "e1", "g1")));
    assert!(moves.contains(&mv(Piece::King, "e1", "c1")));
    assert_eq!(moves.len(), 7);
    let moves = generator.get_piece_moves(&board, Piece::King, Color::Black);
    assert!(moves.contains(&mv(Piece::King, "e8", "g8")));
    assert!(moves.contains(&mv(Piece::King, "e8", "c8")));
    // without the right, no castle
    let board = Board::new("r3k2r/8/8/8/8/8/8/R3K2R w Kq - 0 1");
    let moves = generator.get_piece_moves(&board, Piece::King, Color::White);
    assert!(moves.contains(&mv(Piece::King, "e1", "g1")));
    assert!(!moves.contains(&mv(Piece::King, "e1", "c1")));
    // a piece beside the rook stops the long castle
    let board = Board::new("r3k2r/8/8/8/8/8/8/RN2K2R w KQkq - 0 1");
    let moves = generator.get_piece_moves(&board, Piece::King, Color::White);
    assert!(moves.contains(&mv(Piece::King, "e1", "g1")));
    assert!(!moves.contains(&mv(Piece::King, "e1", "c1")));
    // an attack on a square that the king passes stops the castle
    let board = Board::new("r3k2r/8/8/8/8/5r2/8/R3K2R w KQkq - 0 1");
    let moves = generator.get_piece_moves(&board, Piece::King, Color::White);
    assert!(!moves.contains(&mv(Piece::King, "e1", "g1")));
    assert!(moves.contains(&mv(Piece::King, "e1", "c1")));
}

#[test]
fn castling_through_check_is_not_legal() {
    let mut api = MoveAPI::new("r3k2r/8/8/8/4r3/8/8/R3K2R w KQkq - 0 1");
    let legal = api.get_legal_moves();
    assert!(!legal.contains(&mv(Piece::King, "e1", "g1")));
    assert!(!legal.contains(&mv(Piece::King, "e1", "c1")));
    assert!(!legal.is_empty());
}

#[test]
fn castling_with_an_attacked_rook_is_legal() {
    let mut api = MoveAPI::new("r3k2r/8/8/8/r7/8/8/R3K2R w KQkq - 0 1");
    let legal = api.get_legal_moves();
    assert!(legal.contains(&mv(Piece::King, "e1", "g1")));
    // only the squares of the king's way count: the rook on a1 is attacked,
    // the squares c1, d1 and e1 are not
    assert!(legal.contains(&mv(Piece::King, "e1", "c1")));
}

#[test]
fn a_castle_moves_king_and_rook() {
    let fen = "r3k2r/8/8/8/8/8/8/R3K2R w KQkq - 0 1";
    let board = after(fen, mv(Piece::King, "e1", "g1"));
    assert_eq!(board.get_fen(), "r3k2r/8/8/8/8/8/8/R4RK1 b kq - 0 1");
    let board = after(fen, mv(Piece::King, "e1", "c1"));
    assert_eq!(board.get_fen(), "r3k2r/8/8/8/8/8/8/2KR3R b kq - 0 1");
    let fen = "r3k2r/8/8/8/8/8/8/R3K2R b KQkq - 0 1";
    let board = after(fen, mv(Piece::King, "e8", "g8"));
    assert_eq!(board.get_fen(), "r4rk1/8/8/8/8/8/8/R3K2R w KQ - 0 1");
    let board = after(fen, mv(Piece::King, "e8", "c8"));
    assert_eq!(board.get_fen(), "2kr3r/8/8/8/8/8/8/R3K2R w KQ - 0 1");
}

#[test]
fn kings_and_rooks_that_move_lose_rights() {
    let fen = "r3k2r/8/8/8/8/8/8/R3K2R w KQkq - 0 1";
    assert_eq!(after(fen, mv(Piece::King, "e1", "e2")).get_fen(), "r3k2r/8/8/8/8/8/4K3/R6R b kq - 0 1");
    assert_eq!(after(fen, mv(Piece::Rook, "h1", "h4")).get_fen(), "r3k2r/8/8/8/7R/8/8/R3K3 b Qkq - 0 1");
    assert_eq!(after(fen, mv(Piece::Rook, "a1", "b1")).get_fen(), "r3k2r/8/8/8/8/8/8/1R2K2R b Kkq - 0 1");
    // a rook that is taken at home takes its right with it
    assert_eq!(after(fen, mv(Piece::Rook, "h1", "h8")).get_fen(), "r3k2R/8/8/8/8/8/8/R3K3 b Qq - 0 1");
    assert_eq!(after(fen, mv(Piece::Rook, "a1", "a8")).get_fen(), "R3k2r/8/8/8/8/8/8/4K2R b Kk - 0 1");
}

#[test]
fn a_capture_takes_the_piece_off_its_boards() {
    let fen = "4k3/8/8/3q4/4P3/8/8/4K3 w - - 0 1";
    let board = after(fen, mv(Piece::Pawn, "e4", "d5"));
    assert_eq!(board.get_fen(), "4k3/8/8/3P4/8/8/8/4K3 b - - 0 1");
    assert_eq!(board.queens, 0);
    assert_eq!(board.black_pieces, board.kings & board.black_pieces);
    assert!(board.is_placement_ok());
    // a piece that takes one of its own kind
    let fen = "4k3/8/8/3n4/8/4N3/8/4K3 w - - 0 1";
    let board = after(fen, mv(Piece::Knight, "e3", "d5"));
    assert_eq!(board.get_fen(), "4k3/8/8/3N4/8/8/8/4K3 b - - 0 1");
    assert!(board.is_placement_ok());
}

#[test]
fn a_pawn_that_advances_two_ranks_becomes_the_target() {
    let board = after(STARTING_BOARD, mv(Piece::Pawn, "e2", "e4"));
    assert_eq!(board.ep_target, 1u64 << (63 - 36));
    assert_eq!(board.turn, Color::Black);
    assert_eq!(board.get_fen(), "rnbqkbnr/pppppppp/8/8/4P3/8/PPPP1PPP/RNBQKBNR b KQkq e4 0 1");
    let board = after(STARTING_BOARD, mv(Piece::Pawn, "e2", "e3"));
    assert_eq!(board.ep_target, 0);
    let mut executor = MoveExecutor::new(Board::new(STARTING_BOARD));
    executor.exec_move(mv(Piece::Pawn, "e2", "e4"));
    executor.exec_move(mv(Piece::Knight, "g8", "f6"));
    assert_eq!(executor.get_board_ref().ep_target, 0);
}

#[test]
fn en_passant_takes_the_pawn_beside() {
    // the target is the square of the pawn that has just advanced
    let fen = "rnbqkbnr/ppp1pppp/8/3pP3/8/8/PPPP1PPP/RNBQKBNR w KQkq d5 0 2";
    let mut api = MoveAPI::new(fen);
    let capture = mv(Piece::Pawn, "e5", "d5");
    assert!(api.get_legal_moves().contains(&capture));
    api.exec_move(capture);
    let board = *api.get_board_ref();
    assert_eq!(board.get_fen(), "rnbqkbnr/ppp1pppp/3P4/8/8/8/PPPP1PPP/RNBQKBNR b KQkq - 0 2");
    assert_eq!(board.ep_target, 0);
    assert_eq!(board.get_state()[3][3], (None, None));
    assert_eq!(board.get_state()[2][3], (Some(Piece::Pawn), Some(Color::White)));
    assert!(board.is_placement_ok());
    // after the moves that lead there the capture is found as well
    let mut api = MoveAPI::new("rnbqkbnr/pppppppp/8/4P3/8/8/PPPP1PPP/RNBQKBNR b KQkq - 0 2");
    api.exec_move(mv(Piece::Pawn, "d7", "d5"));
    assert!(api.get_legal_moves().contains(&capture));
    api.exec_move(mv(Piece::Pawn, "e5", "d5"));
    assert_eq!(api.get_board_ref().get_fen(), board.get_fen());
    // black takes in passing downwards
    let mut api = MoveAPI::new("4k3/8/8/8/3pP3/8/8/4K3 b - e4 0 1");
    let capture = mv(Piece::Pawn, "d4", "e4");
    assert!(api.get_legal_moves().contains(&capture));
    api.exec_move(capture);
    assert_eq!(api.get_board_ref().get_fen(), "4k3/8/8/8/8/4p3/8/4K3 w - - 0 1");
}

#[test]
fn en_passant_needs_the_pawn_beside() {
    let generator = MoveGenerator::new();
    let board = Board::new("4k3/8/8/3p2P1/8/8/8/4K3 w - d5 0 1");
    assert_eq!(
        generator.get_piece_moves(&board, Piece::Pawn, Color::White),
        vec![mv(Piece::Pawn, "g5", "g6")]
    );
    // a target on the rank above is not beside the pawn
    let board = Board::new("rnbqkbnr/ppp1pppp/8/3pP3/8/8/PPPP1PPP/RNBQKBNR w KQkq d6 0 2");
    assert!(!generator.get_moves(&board).contains(&mv(Piece::Pawn, "e5", "d6")));
}

#[test]
fn a_pawn_on_its_last_row_is_promoted() {
    let mut api = MoveAPI::new("8/P7/8/8/8/8/8/k6K w - - 0 1");
    let legal = api.get_legal_moves();
    let promotions: Vec<Move> =
        legal.iter().filter(|m| m.piece == Piece::Pawn).cloned().collect();
    assert_eq!(promotions, Move::make_promotions(sq("a7"), sq("a8")));
    assert_eq!(legal.len(), 4 + 3);
    let kinds = [Piece::Queen, Piece::Knight, Piece::Rook, Piece::Bishop];
    let letters = ['Q', 'N', 'R', 'B'];
    for i in 0..4 {
        assert_eq!(promotions[i].promotion, Some(kinds[i]));
        let board = after("8/P7/8/8/8/8/8/k6K w - - 0 1", promotions[i]);
        assert_eq!(board.get_fen(), format!("{}7/8/8/8/8/8/8/k6K b - - 0 1", letters[i]));
        assert_eq!(board.pawns, 0);
        assert!(board.is_placement_ok());
    }
    // a promotion that captures, for Black
    let mut api = MoveAPI::new("4k3/8/8/8/8/8/p7/1N2K3 b - - 0 1");
    let legal = api.get_legal_moves();
    let capture = Move::new(sq("a2"), sq("b1"), Piece::Pawn, Some(Piece::Queen));
    assert!(legal.contains(&capture));
    assert!(legal.contains(&Move::new(sq("a2"), sq("a1"), Piece::Pawn, Some(Piece::Knight))));
    api.exec_move(capture);
    assert_eq!(api.get_board_ref().get_fen(), "4k3/8/8/8/8/8/8/1q2K3 w - - 0 1");
}

#[test]
fn undo_gives_back_the_state_before_the_move() {
    let texts = [
        STARTING_BOARD,
        "r3k2r/p1ppqpb1/bn2pnp1/3PN3/1p2P3/2N2Q1p/PPPBBPPP/R3K2R w KQkq - 0 0",
        "rnbqkbnr/ppp1pppp/8/3pP3/8/8/PPPP1PPP/RNBQKBNR w KQkq d5 0 2",
        "n1n5/PPPk4/8/8/8/8/4Kppp/5N1N b - - 0 6",
    ];
    let generator = MoveGenerator::new();
    for text in texts {
        let before = Board::new(text);
        let mut executor = MoveExecutor::new(before);
        for m in generator.get_moves(&before) {
            executor.exec_move(m);
            assert_ne!(*executor.get_board_ref(), before);
            executor.undo_move();
            assert_eq!(*executor.get_board_ref(), before);
        }
    }
    let mut executor = MoveExecutor::new(Board::new(STARTING_BOARD));
    executor.exec_move(mv(Piece::Pawn, "e2", "e4"));
    let first = *executor.get_board_ref();
    executor.exec_move(mv(Piece::Pawn, "e7", "e5"));
    executor.exec_move(mv(Piece::Knight, "g1", "f3"));
    executor.undo_move();
    executor.undo_move();
    assert_eq!(*executor.get_board_ref(), first);
    executor.undo_move();
    assert_eq!(*executor.get_board_ref(), Board::new(STARTING_BOARD));
}

#[test]
fn legal_moves_never_leave_the_king_attacked() {
    let texts = [
        "r3k2r/p1ppqpb1/bn2pnp1/3PN3/1p2P3/2N2Q1p/PPPBBPPP/R3K2R w KQkq - 0 0",
        "8/2p5/3p4/KP5r/1R3p1k/8/4P1P1/8 w - - 0 0",
        "rnbq1k1r/pp1Pbppp/2p5/8/2B5/8/PPP1NnPP/RNBQK2R w KQ - 1 8",
        "4k3/8/8/8/4r3/8/4R3/4K3 w - - 0 1",
    ];
    let generator = MoveGenerator::new();
    for text in texts {
        let mut api = MoveAPI::new(text);
        let mover = api.get_turn_color();
        let pseudo = api.get_pseudo_moves_color(mover);
        let legal = api.get_legal_moves();
        assert!(legal.len() <= pseudo.len());
        let mut expected = Vec::new();
        for m in pseudo {
            api.exec_move(m);
            let attacked = generator.is_attacked_king(api.get_board_ref(), mover.get_opposite());
            assert_eq!(api.is_check(mover.get_opposite()), attacked);
            api.undo_move();
            if !attacked {
                expected.push(m);
            }
        }
        assert_eq!(legal, expected);
    }
    // a pinned rook moves along the pin alone
    let mut api = MoveAPI::new("4k3/8/8/8/4r3/8/4R3/4K3 w - - 0 1");
    let rook: Vec<String> = api
        .get_legal_moves()
        .iter()
        .filter(|m| m.piece == Piece::Rook)
        .map(|m| m.end.to_string())
        .collect();
    assert_eq!(rook, vec!["e4", "e3"]);
}

#[test]
fn legal_moves_keep_the_boards_in_agreement() {
    let texts = [
        STARTING_BOARD,
        "r3k2r/p1ppqpb1/bn2pnp1/3PN3/1p2P3/2N2Q1p/PPPBBPPP/R3K2R w KQkq - 0 0",
        "rnbqkbnr/ppp1pppp/8/3pP3/8/8/PPPP1PPP/RNBQKBNR w KQkq d5 0 2",
        "n1n5/PPPk4/8/8/8/8/4Kppp/5N1N b - - 0 6",
        "r2q1rk1/pP1p2pp/Q4n2/bbp1p3/Np6/1B3NBn/pPPP1PPP/R3K2R b KQ - 0 1",
    ];
    let generator = MoveGenerator::new();
    for text in texts {
        let mut api = MoveAPI::try_new(text).unwrap();
        assert!(generator.is_valid(api.get_board_ref()));
        for m in api.get_legal_moves() {
            api.exec_move(m);
            let board = *api.get_board_ref();
            assert!(board.is_placement_ok());
            assert!(generator.is_valid(&board));
            assert_eq!(board.white_pieces & board.black_pieces, 0);
            let kinds = [board.pawns, board.knights, board.bishops, board.rooks, board.queens, board.kings];
            for i in 0..6 {
                for j in 0..i {
                    assert_eq!(kinds[i] & kinds[j], 0);
                }
            }
            for color in [Color::White, Color::Black] {
                let mut union = 0;
                for kind in kinds {
                    union |= kind & board.get_pieces(color);
                }
                assert_eq!(union, board.get_pieces(color));
            }
            for n in api.get_legal_moves() {
                api.exec_move(n);
                assert!(generator.is_valid(api.get_board_ref()));
                api.undo_move();
            }
            api.undo_move();
        }
    }
}

#[test]
fn states_that_cannot_arise_in_a_game_are_refused() {
    // no king
    assert!(MoveAPI::try_new("8/8/8/8/8/8/8/K7 w - - 0 1").is_none());
    // two kings of one color
    assert!(MoveAPI::try_new("k7/8/8/8/8/8/8/K6K w - - 0 1").is_none());
    // the side that has moved is in check
    assert!(MoveAPI::try_new("4k3/8/8/8/4R3/8/8/4K3 w - - 0 1").is_none());
    assert!(MoveAPI::try_new("4k3/8/8/8/4R3/8/8/4K3 b - - 0 1").is_some());
    // a right to castle without the rook
    assert!(MoveAPI::try_new("4k3/8/8/8/8/8/8/4K3 w K - 0 1").is_none());
    assert!(MoveAPI::try_new("4k3/8/8/8/8/8/8/4K2R w K - 0 1").is_some());
    assert!(MoveAPI::try_new("4k3/8/8/8/8/8/8/3K3R w K - 0 1").is_none());
    // a target beside a pawn of the side to move that holds no pawn
    assert!(MoveAPI::try_new("4k3/8/8/4P3/8/8/8/4K3 w - d5 0 1").is_none());
    assert!(MoveAPI::try_new("4k3/8/8/3pP3/8/8/8/4K3 w - d5 0 1").is_some());
    assert!(MoveAPI::try_new("4k3/8/3n4/3pP3/8/8/8/4K3 w - d5 0 1").is_none());
    // a target that no pawn of the side to move stands beside is let through
    assert!(MoveAPI::try_new("rnbqkbnr/pppppppp/8/8/4P3/8/PPPP1PPP/RNBQKBNR b KQkq e3 0 1").is_some());
    // text that describes no state
    assert!(MoveAPI::try_new("not a position").is_none());
    // boards that do not agree
    let generator = MoveGenerator::new();
    let mut board = Board::new(STARTING_BOARD);
    assert!(generator.is_valid(&board));
    board.set_color_board(Color::White, 0xffff | (1 << 63));
    assert!(!generator.is_valid(&board));
    let mut board = Board::new(STARTING_BOARD);
    board.set_castle(Castle::Short, Color::White, true);
    board.ep_target = 3;
    assert!(!generator.is_valid(&board));
}

#[test]
fn checkmate_and_stalemate_are_told_apart() {
    // the fool's mate
    let mut api = MoveAPI::new("rnb1kbnr/pppp1ppp/8/4p3/6Pq/5P2/PPPPP2P/RNBQKBNR w KQkq - 1 3");
    assert!(api.get_legal_moves().is_empty());
    assert!(api.is_check(Color::Black));
    assert!(api.is_checkmate());
    assert!(!api.is_stalemate());
    // a stalemate
    let mut api = MoveAPI::new("7k/5Q2/6K1/8/8/8/8/8 b - - 0 1");
    assert!(api.get_legal_moves().is_empty());
    assert!(!api.is_check(Color::White));
    assert!(!api.is_checkmate());
    assert!(api.is_stalemate());
    // a game that goes on
    let mut api = MoveAPI::new(STARTING_BOARD);
    assert!(!api.is_checkmate());
    assert!(!api.is_stalemate());
    assert_eq!(api.get_turn_color(), Color::White);
    assert_eq!(api.get_piece_move_count(Color::White), 20);
    assert_eq!(api.get_state()[7][4], (Some(Piece::King), Some(Color::White)));
    // a check that can be met
    let mut api = MoveAPI::new("4k3/8/8/8/4r3/8/8/4K3 w - - 0 1");
    assert!(api.is_check(Color::Black));
    assert!(!api.is_checkmate());
    assert_eq!(api.get_legal_moves().len(), 4);
}

#[test]
fn well_known_positions_can_arise_in_a_game() {
    let texts = [
        STARTING_BOARD,
        "r3k2r/p1ppqpb1/bn2pnp1/3PN3/1p2P3/2N2Q1p/PPPBBPPP/R3K2R w KQkq - 0 0",
        "8/2p5/3p4/KP5r/1R3p1k/8/4P1P1/8 w - - 0 0",
        "r2q1rk1/pP1p2pp/Q4n2/bbp1p3/Np6/1B3NBn/pPPP1PPP/R3K2R b KQ - 0 1 ",
        "rnbq1k1r/pp1Pbppp/2p5/8/2B5/8/PPP1NnPP/RNBQK2R w KQ - 1 8  ",
        "r4rk1/1pp1qppp/p1np1n2/2b1p1B1/2B1P1b1/P1NP1N2/1PP1QPPP/R4RK1 w - - 0 10  ",
        "n1n5/PPPk4/8/8/8/8/4Kppp/5N1N b - - 0 6",
        "r3k2r/8/8/8/4r3/8/8/R3K2R w KQkq - 0 1",
        "r3k2r/8/8/8/r7/8/8/R3K2R w KQkq - 0 1",
        "8/P7/8/8/8/8/8/k6K w - - 0 1",
        "rnbqkbnr/ppp1pppp/8/3pP3/8/8/PPPP1PPP/RNBQKBNR w KQkq d6 0 2",
    ];
    for text in texts {
        let api = MoveAPI::try_new(text);
        assert!(api.is_some(), "{}", text);
        assert!(api.unwrap().is_valid());
    }
}
