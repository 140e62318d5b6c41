use chess_engine::api::chess_api::contains_move;
use chess_engine::api::chess_api::ChessGame;
use chess_engine::api::chess_api::GameAPI;
use chess_engine::api::chess_api::Message;
use chess_engine::chess::cmove::Move;
use chess_engine::chess::color::Color;
use chess_engine::chess::fen::STARTING_BOARD;
use chess_engine::chess::move_api::MoveAPI;
use chess_engine::chess::piece::Piece;
use chess_engine::chess::position::Position;
use chess_engine::game::agent::pick_move;
use chess_engine::game::agent::Agent;
use chess_engine::game::agent::RandomAgent;
use chess_engine::game::good_ideas::GoodIdeas;
use chess_engine::game::good_ideas::GOOD_MOVE_COUNT;

fn game(fen: &str) -> ChessGame {
    ChessGame::new(MoveAPI::try_new(fen).unwrap())
}

fn info(message: Message) -> String {
    match message {
        Message::Info(text) => text,
        Message::Error(text) => panic!("an error: {}", text),
    }
}

fn error(message: Message) -> String {
    match message {
        Message::Info(text) => panic!("no error: {}", text),
        Message::Error(text) => text,
    }
}

#[test]
fn a_legal_move_is_made() {
    let mut game = game(STARTING_BOARD);
    let m = Move::new(Position::new(6, 4), Position::new(4, 4), Piece::Pawn, None);
    assert_eq!(info(game.try_move(m)), "Move Sucess");
    assert_eq!(game.get_fen(), "rnbqkbnr/pppppppp/8/8/4P3/8/PPPP1PPP/RNBQKBNR b KQkq e4 0 1");
    assert_eq!(game.get_turn_color(), Color::Black);
    assert_eq!(game.get_legal_moves().len(), 20);
}

#[test]
fn a_move_that_is_not_legal_changes_nothing() {
    let mut game = game(STARTING_BOARD);
    let bad = [
        Move::new(Position::new(6, 4), Position::new(3, 4), Piece::Pawn, None),
        Move::new(Position::new(6, 4), Position::new(4, 4), Piece::Knight, None),
        Move::new(Position::new(1, 4), Position::new(3, 4), Piece::Pawn, None),
        Move::new(Position::new(6, 4), Position::new(4, 4), Piece::Pawn, Some(Piece::Queen)),
        Move::new(Position::new(-1, 4), Position::new(40, 4), Piece::Pawn, None),
    ];
    for m in bad {
        assert_eq!(error(game.try_move(m)), "Not a legal move");
        assert_eq!(game.get_fen(), STARTING_BOARD);
    }
}

#[test]
fn a_move_is_taken_back() {
    let mut game = game(STARTING_BOARD);
    let m = Move::new(Position::new(7, 6), Position::new(5, 5), Piece::Knight, None);
    info(game.try_move(m));
    assert_eq!(info(game.try_undo()), "Successful Request");
    assert_eq!(game.get_fen(), STARTING_BOARD);
    assert_eq!(game.get_state()[7][6], (Some(Piece::Knight), Some(Color::White)));
}

#[test]
fn the_outcome_names_the_winner() {
    assert_eq!(info(game(STARTING_BOARD).get_outcome()), "IsOngoing");
    let mated = "rnb1kbnr/pppp1ppp/8/4p3/6Pq/5P2/PPPPP2P/RNBQKBNR w KQkq - 1 3";
    assert_eq!(info(game(mated).get_outcome()), "Black");
    assert_eq!(info(game("7k/8/5KQ1/8/8/8/8/7R b - - 0 1").get_outcome()), "White");
    assert_eq!(info(game("7k/5Q2/6K1/8/8/8/8/8 b - - 0 1").get_outcome()), "Stalemate");
}

#[test]
fn the_piece_on_a_square_is_found() {
    let game = game(STARTING_BOARD);
    assert_eq!(game.get_piece(Position::new(0, 0)), Some(Piece::Rook));
    assert_eq!(game.get_piece(Position::new(7, 1)), Some(Piece::Knight));
    assert_eq!(game.get_piece(Position::new(0, 2)), Some(Piece::Bishop));
    assert_eq!(game.get_piece(Position::new(7, 3)), Some(Piece::Queen));
    assert_eq!(game.get_piece(Position::new(0, 4)), Some(Piece::King));
    assert_eq!(game.get_piece(Position::new(6, 7)), Some(Piece::Pawn));
    assert_eq!(game.get_piece(Position::new(3, 3)), None);
}

#[test]
fn moves_are_looked_up_in_a_list() {
    let a = Move::new(Position::new(6, 4), Position::new(4, 4), Piece::Pawn, None);
    let b = Move::new(Position::new(6, 4), Position::new(5, 4), Piece::Pawn, None);
    let c = Move::new(Position::new(6, 4), Position::new(4, 4), Piece::Pawn, Some(Piece::Rook));
    assert!(contains_move(&vec![a, b], &a));
    assert!(contains_move(&vec![a, b], &b));
    assert!(!contains_move(&vec![a, b], &c));
    assert!(!contains_move(&vec![], &a));
}

#[test]
fn a_number_picks_a_move() {
    let a = Move::new(Position::new(6, 4), Position::new(4, 4), Piece::Pawn, None);
    let b = Move::new(Position::new(6, 4), Position::new(5, 4), Piece::Pawn, None);
    let c = Move::new(Position::new(7, 6), Position::new(5, 5), Piece::Knight, None);
    let moves = vec![a, b, c];
    assert_eq!(pick_move(&moves, 0), Some(a));
    assert_eq!(pick_move(&moves, 1), Some(b));
    assert_eq!(pick_move(&moves, 5), Some(c));
    assert_eq!(pick_move(&moves, usize::MAX), Some(moves[usize::MAX % 3]));
    assert_eq!(pick_move(&vec![], 7), None);
}

#[test]
fn the_random_player_makes_legal_moves() {
    let mut agent = RandomAgent::new();
    let mut game = game(STARTING_BOARD);
    let mut seen = Vec::new();
    for _ in 0..200 {
        let legal = game.get_legal_moves();
        let m = agent.getAgentMove(&mut game).unwrap();
        assert!(legal.contains(&m));
        assert_eq!(game.get_fen(), STARTING_BOARD);
        if !seen.contains(&m) {
            seen.push(m);
        }
    }
    // two hundred draws from twenty moves are not all the same
    assert!(seen.len() > 1);
    let mut play = game;
    for _ in 0..60 {
        match agent.getAgentMove(&mut play) {
            Some(m) => {
                assert_eq!(info(play.try_move(m)), "Move Sucess");
            }
            None => {
                assert_ne!(info(play.get_outcome()), "IsOngoing");
                break;
            }
        }
    }
}

#[test]
fn the_random_player_has_no_move_when_the_game_is_over() {
    let mut agent = RandomAgent::new();
    let mut mated = game("rnb1kbnr/pppp1ppp/8/4p3/6Pq/5P2/PPPPP2P/RNBQKBNR w KQkq - 1 3");
    assert_eq!(agent.getAgentMove(&mut mated), None);
    let mut stale = game("7k/5Q2/6K1/8/8/8/8/8 b - - 0 1");
    assert_eq!(agent.getAgentMove(&mut stale), None);
}

#[test]
fn the_last_two_good_ideas_of_a_depth_are_kept() {
    let a = Move::new(Position::new(6, 4), Position::new(4, 4), Piece::Pawn, None);
    let b = Move::new(Position::new(6, 4), Position::new(5, 4), Piece::Pawn, None);
    let c = Move::new(Position::new(7, 6), Position::new(5, 5), Piece::Knight, None);
    assert_eq!(GOOD_MOVE_COUNT, 2);
    let mut ideas = GoodIdeas::new(3);
    assert_eq!(ideas.depths(), 5);
    for depth in 0..5 {
        assert!(!ideas.is_good_idea(depth, &a));
    }
    ideas.remember(1, a);
    assert!(ideas.is_good_idea(1, &a));
    assert!(!ideas.is_good_idea(0, &a));
    assert!(!ideas.is_good_idea(2, &a));
    ideas.remember(1, b);
    assert!(ideas.is_good_idea(1, &a) && ideas.is_good_idea(1, &b));
    ideas.remember(1, c);
    assert!(!ideas.is_good_idea(1, &a));
    assert!(ideas.is_good_idea(1, &b) && ideas.is_good_idea(1, &c));
    ideas.remember(1, c);
    assert!(!ideas.is_good_idea(1, &b));
    assert!(ideas.is_good_idea(1, &c));
    ideas.remember(4, a);
    assert!(ideas.is_good_idea(4, &a));
    assert_eq!(GoodIdeas::new(0).depths(), 2);
}
