use chess_engine::chess::bitboard_util::bitboard_to_string;
use chess_engine::chess::bitboard_util::clear_bit;
use chess_engine::chess::bitboard_util::get_bit;
use chess_engine::chess::bitboard_util::mask;
use chess_engine::chess::bitboard_util::put_bit;
use chess_engine::chess::board::Castle;
use chess_engine::chess::board::Square;
use chess_engine::chess::castle_utils::CastleUtility;
use chess_engine::chess::color::Color;
use chess_engine::chess::direction::get_direction;
use chess_engine::chess::direction::get_opposite;
use chess_engine::chess::direction::shift;
use chess_engine::chess::direction::Direction;
use chess_engine::chess::move_generator::MoveGenerator;
use chess_engine::chess::move_table::MoveTable;
use chess_engine::chess::piece::Piece;
use chess_engine::chess::position::algebraic_to_position;
use chess_engine::chess::position::position_to_algebraic;
use chess_engine::chess::position::Position;

fn board_of(squares: &[usize]) -> u64 {
    let mut out = 0;
    for s in squares {
        out = put_bit(out, *s);
    }
    out
}

#[test]
fn mask_is_the_bit_counted_from_the_top() {
    assert_eq!(mask(0), 1u64 << 63);
    assert_eq!(mask(7), 1u64 << 56);
    assert_eq!(mask(56), 1u64 << 7);
    assert_eq!(mask(63), 1);
    assert_eq!(mask(Square::E4 as usize), 1u64 << 27);
}

#[test]
fn put_get_and_clear_work_on_one_square() {
    let b = put_bit(0, 12);
    assert_eq!(b, mask(12));
    assert_eq!(get_bit(b, 12), mask(12));
    assert_eq!(get_bit(b, 13), 0);
    assert_eq!(put_bit(b, 12), b);
    let c = put_bit(b, 40);
    assert_eq!(c, mask(12) | mask(40));
    assert_eq!(clear_bit(c, 12), mask(40));
    assert_eq!(clear_bit(c, 13), c);
    assert_eq!(clear_bit(u64::MAX, 0), u64::MAX >> 1);
}

#[test]
fn listing_by_leading_zeros_is_ascending_and_complete() {
    let squares = [0usize, 1, 9, 31, 32, 62, 63];
    let positions = MoveGenerator::bitboard_to_positions(board_of(&squares));
    let listed: Vec<usize> = positions.iter().map(|p| p.to_index()).collect();
    assert_eq!(listed, squares.to_vec());
    assert!(MoveGenerator::bitboard_to_positions(0).is_empty());
    assert_eq!(MoveGenerator::bitboard_to_positions(u64::MAX).len(), 64);
}

#[test]
fn bitboard_text_has_eight_rows_of_eight() {
    let text = bitboard_to_string(mask(0) | mask(9) | mask(63));
    assert_eq!(
        text,
        "10000000\n01000000\n00000000\n00000000\n00000000\n00000000\n00000000\n00000001"
    );
    assert_eq!(bitboard_to_string(0).len(), 71);
}

#[test]
fn opposite_color_is_an_involution() {
    assert_eq!(Color::White.get_opposite(), Color::Black);
    assert_eq!(Color::Black.get_opposite(), Color::White);
    assert_eq!(Color::White.get_opposite().get_opposite(), Color::White);
    assert_eq!(Color::Black.get_opposite().get_opposite(), Color::Black);
}

#[test]
fn positions_and_indices_agree() {
    assert_eq!(Position::index(0), Position::new(0, 0));
    assert_eq!(Position::index(7), Position::new(0, 7));
    assert_eq!(Position::index(56), Position::new(7, 0));
    assert_eq!(Position::index(63), Position::new(7, 7));
    assert_eq!(Position::new(4, 4).to_index(), 36);
    for i in 0..64 {
        assert_eq!(Position::index(i).to_index(), i);
        assert!(Position::index(i).is_in_range());
    }
    assert!(!Position::new(-1, 0).is_in_range());
    assert!(!Position::new(0, 8).is_in_range());
    assert_eq!(Position::new(3, 5).get_row(), 3);
    assert_eq!(Position::new(3, 5).get_col(), 5);
}

#[test]
fn positions_add_subtract_and_multiply() {
    assert_eq!(Position::new(3, 4) + Position::new(-1, 1), Position::new(2, 5));
    assert_eq!(Position::new(3, 4) - Position::new(5, 1), Position::new(-2, 3));
    assert_eq!(Position::new(3, 4) * Position::new(2, -1), Position::new(6, -4));
}

#[test]
fn algebraic_names_run_from_a8_to_h1() {
    assert_eq!(position_to_algebraic(&Position::new(0, 0)), "a8");
    assert_eq!(position_to_algebraic(&Position::new(7, 7)), "h1");
    assert_eq!(Position::new(4, 4).to_string(), "e4");
    assert_eq!(algebraic_to_position(&"e4".to_string()), Position::new(4, 4));
    assert_eq!(algebraic_to_position(&"a8".to_string()), Position::new(0, 0));
    assert_eq!(algebraic_to_position(&"h1".to_string()), Position::new(7, 7));
    for i in 0..64 {
        let p = Position::index(i);
        assert_eq!(algebraic_to_position(&position_to_algebraic(&p)), p);
    }
}

#[test]
fn directions_shift_and_turn_round() {
    assert_eq!(shift(Direction::North), Position::new(-1, 0));
    assert_eq!(shift(Direction::SouthEast), Position::new(1, 1));
    assert_eq!(shift(Direction::West), Position::new(0, -1));
    assert!(get_opposite(Direction::North) == Direction::South);
    assert!(get_opposite(Direction::NorthEast) == Direction::SouthWest);
    assert!(get_opposite(get_opposite(Direction::East)) == Direction::East);
}

#[test]
fn direction_of_a_vector() {
    assert!(get_direction(&Position::new(0, 3)) == Some(Direction::East));
    assert!(get_direction(&Position::new(0, -3)) == Some(Direction::West));
    assert!(get_direction(&Position::new(0, 0)) == Some(Direction::West));
    assert!(get_direction(&Position::new(-2, 0)) == Some(Direction::North));
    assert!(get_direction(&Position::new(5, 0)) == Some(Direction::South));
    assert!(get_direction(&Position::new(-2, 2)) == Some(Direction::NorthEast));
    assert!(get_direction(&Position::new(-2, -2)) == Some(Direction::NorthWest));
    assert!(get_direction(&Position::new(3, -3)) == Some(Direction::SouthWest));
    assert!(get_direction(&Position::new(3, 3)) == Some(Direction::SouthEast));
    assert!(get_direction(&Position::new(1, 2)) == None);
}

#[test]
fn castle_squares_and_boards() {
    assert_eq!(CastleUtility::get_rook_origin(Castle::Short, Color::White), 63);
    assert_eq!(CastleUtility::get_rook_origin(Castle::Long, Color::White), 56);
    assert_eq!(CastleUtility::get_rook_origin(Castle::Short, Color::Black), 7);
    assert_eq!(CastleUtility::get_rook_origin(Castle::Long, Color::Black), 0);
    assert_eq!(CastleUtility::get_king_landing(Castle::Short, Color::White), 62);
    assert_eq!(CastleUtility::get_king_landing(Castle::Long, Color::White), 58);
    assert_eq!(CastleUtility::get_king_landing(Castle::Short, Color::Black), 6);
    assert_eq!(CastleUtility::get_king_landing(Castle::Long, Color::Black), 2);
    let castle = CastleUtility::new();
    assert_eq!(castle.get_clear_castle(Castle::Short, Color::Black), !board_of(&[4, 5, 6, 7]));
    assert_eq!(castle.get_clear_castle(Castle::Long, Color::Black), !board_of(&[0, 1, 2, 3, 4]));
    assert_eq!(castle.get_clear_castle(Castle::Short, Color::White), !board_of(&[60, 61, 62, 63]));
    assert_eq!(
        castle.get_clear_castle(Castle::Long, Color::White),
        !board_of(&[56, 57, 58, 59, 60])
    );
    assert_eq!(castle.get_castle_result(Castle::Short, Color::Black), board_of(&[5, 6]));
    assert_eq!(castle.get_castle_result(Castle::Long, Color::Black), board_of(&[2, 3]));
    assert_eq!(castle.get_castle_result(Castle::Short, Color::White), board_of(&[61, 62]));
    assert_eq!(castle.get_castle_result(Castle::Long, Color::White), board_of(&[58, 59]));
}

#[test]
fn tables_of_the_jumpers() {
    let table = MoveTable::new();
    assert_eq!(table.get_piece_table(Piece::Knight)[57], board_of(&[40, 42, 51]));
    assert_eq!(
        table.get_piece_table(Piece::Knight)[36],
        board_of(&[19, 21, 26, 30, 42, 46, 51, 53])
    );
    assert_eq!(table.get_piece_table(Piece::King)[0], board_of(&[1, 8, 9]));
    assert_eq!(
        table.get_piece_table(Piece::King)[36],
        board_of(&[27, 28, 29, 35, 37, 43, 44, 45])
    );
}

#[test]
fn tables_of_the_pawns() {
    let table = MoveTable::new();
    assert_eq!(table.get_pawn(Color::White)[52], board_of(&[44, 36]));
    assert_eq!(table.get_pawn(Color::White)[44], board_of(&[36]));
    assert_eq!(table.get_pawn(Color::White)[4], 0);
    assert_eq!(table.get_pawn(Color::Black)[12], board_of(&[20, 28]));
    assert_eq!(table.get_pawn(Color::Black)[20], board_of(&[28]));
    assert_eq!(table.get_pawn(Color::Black)[60], 0);
    assert_eq!(table.get_pawn_attack(Color::White)[52], board_of(&[43, 45]));
    assert_eq!(table.get_pawn_attack(Color::White)[48], board_of(&[41]));
    assert_eq!(table.get_pawn_attack(Color::Black)[12], board_of(&[19, 21]));
    assert_eq!(table.get_pawn_attack(Color::Black)[15], board_of(&[22]));
    assert_eq!(table.get_fourth_rank(), 0x0000_00ff_ff00_0000);
}

#[test]
fn tables_of_the_sliders() {
    let table = MoveTable::new();
    assert_eq!(
        table.get_piece_table(Piece::Rook)[0],
        board_of(&[1, 2, 3, 4, 5, 6, 7, 8, 16, 24, 32, 40, 48, 56])
    );
    assert_eq!(
        table.get_piece_table(Piece::Bishop)[0],
        board_of(&[9, 18, 27, 36, 45, 54, 63])
    );
    assert_eq!(
        table.get_piece_table(Piece::Bishop)[36],
        board_of(&[0, 9, 18, 27, 45, 54, 63, 57, 50, 43, 29, 22, 15])
    );
    for s in 0..64 {
        assert_eq!(
            table.get_piece_table(Piece::Queen)[s],
            table.get_piece_table(Piece::Rook)[s] | table.get_piece_table(Piece::Bishop)[s]
        );
        assert_eq!(table.get_piece_table(Piece::Rook)[s].count_ones(), 14);
    }
}

#[test]
fn rays_lie_behind_the_second_square() {
    let table = MoveTable::new();
    let rays = table.get_rays();
    assert_eq!(rays[0][2], board_of(&[3, 4, 5, 6, 7]));
    assert_eq!(rays[0][18], board_of(&[27, 36, 45, 54, 63]));
    assert_eq!(rays[63][7], 0);
    assert_eq!(rays[63][15], board_of(&[7]));
    assert_eq!(rays[0][10], 0);
    assert_eq!(rays[36][36], board_of(&[35, 34, 33, 32]));
    assert_eq!(rays[36][28], board_of(&[20, 12, 4]));
}

#[test]
fn castle_landing_and_safety_boards() {
    let table = MoveTable::new();
    assert_eq!(table.get_castle(Castle::Short, Color::White), mask(62));
    assert_eq!(table.get_castle(Castle::Long, Color::White), mask(58));
    assert_eq!(table.get_castle(Castle::Short, Color::Black), mask(6));
    assert_eq!(table.get_castle(Castle::Long, Color::Black), mask(2));
    assert_eq!(
        table.get_castle_safe_squares(Castle::Short, Color::White),
        board_of(&[60, 61, 62])
    );
    assert_eq!(
        table.get_castle_safe_squares(Castle::Long, Color::White),
        board_of(&[58, 59, 60])
    );
    assert_eq!(table.get_castle_safe_squares(Castle::Short, Color::Black), board_of(&[4, 5, 6]));
    assert_eq!(table.get_castle_safe_squares(Castle::Long, Color::Black), board_of(&[2, 3, 4]));
}
