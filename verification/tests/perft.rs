use chess_engine::chess::fen::STARTING_BOARD;
use chess_engine::chess::move_api::MoveAPI;

fn perft(fen: &str, depth: u64) -> u64 {
    let mut api = MoveAPI::new(fen);
    let before = *api.get_board_ref();
    let count = api.perft(depth).0;
    assert_eq!(*api.get_board_ref(), before);
    count
}

const KIWIPETE: &str = "r3k2r/p1ppqpb1/bn2pnp1/3PN3/1p2P3/2N2Q1p/PPPBBPPP/R3K2R w KQkq - 0 0";
const ENDGAME: &str = "8/2p5/3p4/KP5r/1R3p1k/8/4P1P1/8 w - - 0 0";
const PROMOTIONS: &str = "n1n5/PPPk4/8/8/8/8/4Kppp/5N1N b - - 0 6";
const MIRRORED: &str = "r2q1rk1/pP1p2pp/Q4n2/bbp1p3/Np6/1B3NBn/pPPP1PPP/R3K2R b KQ - 0 1";
const TRICKY: &str = "rnbq1k1r/pp1Pbppp/2p5/8/2B5/8/PPP1NnPP/RNBQK2R w KQ - 1 8";

#[test]
fn perft_depth_zero_is_one() {
    assert_eq!(perft(STARTING_BOARD, 0), 1);
    assert_eq!(perft(KIWIPETE, 0), 1);
}

#[test]
fn perft_start_depth_1() {
    assert_eq!(perft(STARTING_BOARD, 1), 20);
}

#[test]
fn perft_start_depth_2() {
    assert_eq!(perft(STARTING_BOARD, 2), 400);
}

#[test]
fn perft_start_depth_3() {
    assert_eq!(perft(STARTING_BOARD, 3), 8902);
}

#[test]
fn perft_start_depth_4() {
    assert_eq!(perft(STARTING_BOARD, 4), 197281);
}

#[test]
fn perft_start_depth_5() {
    assert_eq!(perft(STARTING_BOARD, 5), 4865609);
}

#[test]
fn perft_kiwipete_shallow() {
    assert_eq!(perft(KIWIPETE, 1), 48);
    assert_eq!(perft(KIWIPETE, 2), 2039);
    assert_eq!(perft(KIWIPETE, 3), 97862);
}

#[test]
fn perft_kiwipete_depth_4() {
    assert_eq!(perft(KIWIPETE, 4), 4085603);
}

#[test]
fn perft_endgame_shallow() {
    assert_eq!(perft(ENDGAME, 1), 14);
    assert_eq!(perft(ENDGAME, 2), 191);
    assert_eq!(perft(ENDGAME, 3), 2812);
    assert_eq!(perft(ENDGAME, 4), 43238);
    assert_eq!(perft(ENDGAME, 5), 674624);
}

#[test]
fn perft_endgame_depth_6() {
    assert_eq!(perft(ENDGAME, 6), 11030083);
}

#[test]
fn perft_mirrored_depth_4() {
    assert_eq!(perft(MIRRORED, 1), 6);
    assert_eq!(perft(MIRRORED, 2), 264);
    assert_eq!(perft(MIRRORED, 3), 9467);
    assert_eq!(perft(MIRRORED, 4), 422333);
}

#[test]
fn perft_tricky_shallow() {
    assert_eq!(perft(TRICKY, 1), 44);
    assert_eq!(perft(TRICKY, 2), 1486);
    assert_eq!(perft(TRICKY, 3), 62379);
    assert_eq!(perft(TRICKY, 4), 2103487);
}

#[test]
fn perft_mirrored_depth_5() {
    assert_eq!(perft(MIRRORED, 5), 15833292);
}

#[test]
fn perft_promotions_depth_5() {
    assert_eq!(perft(PROMOTIONS, 1), 24);
    assert_eq!(perft(PROMOTIONS, 2), 496);
    assert_eq!(perft(PROMOTIONS, 3), 9483);
    assert_eq!(perft(PROMOTIONS, 4), 182838);
    assert_eq!(perft(PROMOTIONS, 5), 3605103);
}
