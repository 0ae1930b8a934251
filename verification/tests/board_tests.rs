use num_bigint::BigInt;

use infinichess::board::Board;
use infinichess::piece::{Color, Piece, PieceKind};
use infinichess::rules::PermissiveRules;

fn bi(v: i64) -> BigInt {
    BigInt::from(v)
}

fn place(board: &mut Board, kind: PieceKind, color: Color, rank: i64, file: i64) -> usize {
    board
        .place_piece(Piece::new(kind, color, bi(rank), bi(file)))
        .unwrap()
}

#[test]
fn new_board_is_empty() {
    let mut b = Board::new();
    assert_eq!(b.active_pieces().len(), 0);
    assert_eq!(b.last_move(), None);
    assert_eq!(*b.current_turn(), bi(0));
    assert_eq!(b.get_piece_at(&bi(3), &bi(3)), None);
}

#[test]
fn lookup_materializes_pawn_once() {
    let mut b = Board::new();
    let first = b.get_piece_at(&bi(1), &bi(5));
    let second = b.get_piece_at(&bi(1), &bi(5));
    assert!(first.is_some());
    assert_eq!(first, second);
    assert_eq!(b.active_pieces().len(), 1);
    let id = first.unwrap();
    assert_eq!(b.pieces[id].get_kind(), PieceKind::Pawn);
    assert_eq!(b.pieces[id].get_color(), Color::Black);
}

#[test]
fn white_start_rank_materializes_white_pawn() {
    let mut b = Board::new();
    let id = b.get_piece_at(&bi(6), &bi(-3)).unwrap();
    assert_eq!(b.pieces[id].get_color(), Color::White);
    assert_eq!(b.get_piece_at(&bi(6), &bi(-3)), Some(id));
    assert_eq!(b.active_pieces().len(), 1);
}

#[test]
fn trackers_are_independent_per_color() {
    let mut b = Board::new();
    let black = b.get_piece_at(&bi(1), &bi(2)).unwrap();
    // Touching file 2 on the black start rank must not mark it for white:
    let white = b.get_piece_at(&bi(6), &bi(2)).unwrap();
    assert_ne!(black, white);
    assert_eq!(b.pieces[black].get_color(), Color::Black);
    assert_eq!(b.pieces[white].get_color(), Color::White);
    assert_eq!(b.active_pieces().len(), 2);
}

#[test]
fn other_ranks_materialize_nothing() {
    let mut b = Board::new();
    assert_eq!(b.get_piece_at(&bi(0), &bi(0)), None);
    assert_eq!(b.get_piece_at(&bi(2), &bi(0)), None);
    assert_eq!(b.get_piece_at(&bi(-1), &bi(0)), None);
    assert_eq!(b.get_piece_at(&bi(100), &bi(0)), None);
    assert_eq!(b.active_pieces().len(), 0);
}

#[test]
fn place_and_lookup() {
    let mut b = Board::new();
    let id = place(&mut b, PieceKind::Rook, Color::Black, 0, 0);
    assert_eq!(id, 0);
    assert_eq!(b.get_piece_at(&bi(0), &bi(0)), Some(id));
}

#[test]
fn move_to_empty_square_relocates_mover() {
    let mut b = Board::new();
    let id = place(&mut b, PieceKind::Rook, Color::Black, 0, 0);
    let r = b.do_move(&bi(0), &bi(0), &bi(3), &bi(0));
    assert_eq!(r, Some(0));
    assert_eq!(b.get_piece_at(&bi(3), &bi(0)), Some(id));
    assert_eq!(b.get_piece_at(&bi(0), &bi(0)), None);
    assert_eq!(b.last_move(), Some(id));
}

#[test]
fn move_from_empty_square_is_a_no_op() {
    let mut b = Board::new();
    assert_eq!(b.do_move(&bi(4), &bi(4), &bi(5), &bi(4)), None);
    assert_eq!(b.active_pieces().len(), 0);
    assert_eq!(b.last_move(), None);
}

#[test]
fn capture_tombstones_the_occupant() {
    let mut b = Board::new();
    let attacker = place(&mut b, PieceKind::Rook, Color::Black, 0, 0);
    let victim = place(&mut b, PieceKind::Rook, Color::White, 3, 0);
    assert_eq!(b.do_move(&bi(0), &bi(0), &bi(3), &bi(0)), Some(0));
    assert!(b.pieces[victim].is_captured());
    assert_eq!(b.get_piece_at(&bi(3), &bi(0)), Some(attacker));
    assert_eq!(b.active_pieces(), vec![attacker]);
}

#[test]
fn en_passant_captures_sideways_piece() {
    let mut b = Board::new();
    let pawn = place(&mut b, PieceKind::Pawn, Color::White, 3, 0);
    let victim = place(&mut b, PieceKind::Pawn, Color::Black, 3, 1);
    assert_eq!(b.do_move(&bi(3), &bi(0), &bi(2), &bi(1)), Some(0));
    assert!(b.pieces[victim].is_captured());
    assert_eq!(b.get_piece_at(&bi(2), &bi(1)), Some(pawn));
    assert_eq!(b.get_piece_at(&bi(3), &bi(1)), None);
}

#[test]
fn en_passant_needs_a_pawn() {
    let mut b = Board::new();
    let rook = place(&mut b, PieceKind::Rook, Color::White, 3, 0);
    let bystander = place(&mut b, PieceKind::Pawn, Color::Black, 3, 1);
    assert_eq!(b.do_move(&bi(3), &bi(0), &bi(2), &bi(1)), Some(0));
    assert!(!b.pieces[bystander].is_captured());
    assert_eq!(b.get_piece_at(&bi(2), &bi(1)), Some(rook));
}

#[test]
fn castle_queenside_moves_rook() {
    let mut b = Board::new();
    let king = place(&mut b, PieceKind::King, Color::Black, 0, 4);
    let rook = place(&mut b, PieceKind::Rook, Color::Black, 0, 0);
    assert_eq!(b.do_move(&bi(0), &bi(4), &bi(0), &bi(2)), Some(0));
    assert_eq!(b.get_piece_at(&bi(0), &bi(2)), Some(king));
    assert_eq!(b.get_piece_at(&bi(0), &bi(3)), Some(rook));
    assert_eq!(b.get_piece_at(&bi(0), &bi(0)), None);
}

#[test]
fn castle_kingside_moves_rook() {
    let mut b = Board::new();
    let king = place(&mut b, PieceKind::King, Color::White, 7, 4);
    let rook = place(&mut b, PieceKind::Rook, Color::White, 7, 7);
    assert_eq!(b.do_move(&bi(7), &bi(4), &bi(7), &bi(6)), Some(0));
    assert_eq!(b.get_piece_at(&bi(7), &bi(6)), Some(king));
    assert_eq!(b.get_piece_at(&bi(7), &bi(5)), Some(rook));
    assert_eq!(b.get_piece_at(&bi(7), &bi(7)), None);
}

#[test]
fn castle_without_rook_aborts() {
    let mut b = Board::new();
    let king = place(&mut b, PieceKind::King, Color::Black, 0, 4);
    assert_eq!(b.do_move(&bi(0), &bi(4), &bi(0), &bi(2)), None);
    assert_eq!(b.get_piece_at(&bi(0), &bi(4)), Some(king));
    assert_eq!(b.last_move(), None);
}

#[test]
fn short_king_move_is_not_a_castle() {
    let mut b = Board::new();
    let king = place(&mut b, PieceKind::King, Color::Black, 0, 3);
    let rook = place(&mut b, PieceKind::Rook, Color::Black, 0, 0);
    assert_eq!(b.do_move(&bi(0), &bi(3), &bi(0), &bi(2)), Some(0));
    assert_eq!(b.get_piece_at(&bi(0), &bi(2)), Some(king));
    assert_eq!(b.get_piece_at(&bi(0), &bi(0)), Some(rook));
}

#[test]
fn promotion_rewrites_type_in_place() {
    let mut b = Board::new();
    let id = place(&mut b, PieceKind::Pawn, Color::White, 0, 3);
    assert_eq!(b.promote(&bi(0), &bi(3), PieceKind::Queen), Some(id));
    assert_eq!(b.pieces[id].get_kind(), PieceKind::Queen);
    assert!(!b.pieces[id].is_captured());
    assert_eq!(b.last_move(), None);
    assert_eq!(*b.current_turn(), bi(0));
}

#[test]
fn promotion_of_empty_square_is_absent() {
    let mut b = Board::new();
    assert_eq!(b.promote(&bi(4), &bi(4), PieceKind::Queen), None);
}

#[test]
fn same_square_is_illegal() {
    let mut b = Board::new();
    let rules = PermissiveRules::new();
    place(&mut b, PieceKind::Rook, Color::Black, 0, 0);
    assert!(!b.is_move_legal(&rules, &bi(0), &bi(0), &bi(0), &bi(0)));
    assert!(!b.is_move_legal(&rules, &bi(4), &bi(4), &bi(4), &bi(4)));
}

#[test]
fn empty_origin_is_illegal() {
    let mut b = Board::new();
    let rules = PermissiveRules::new();
    assert!(!b.is_move_legal(&rules, &bi(4), &bi(4), &bi(5), &bi(4)));
}

#[test]
fn same_color_destination_is_illegal_despite_rules() {
    let mut b = Board::new();
    let rules = PermissiveRules::new();
    place(&mut b, PieceKind::Rook, Color::White, 0, 0);
    place(&mut b, PieceKind::Knight, Color::White, 0, 5);
    place(&mut b, PieceKind::Knight, Color::Black, 3, 3);
    // The permissive capability reports every shape as fine, yet:
    assert!(!b.is_move_legal(&rules, &bi(0), &bi(0), &bi(0), &bi(5)));
    // An enemy occupant, or an empty square, stays legal:
    assert!(b.is_move_legal(&rules, &bi(0), &bi(0), &bi(3), &bi(3)));
    assert!(b.is_move_legal(&rules, &bi(0), &bi(0), &bi(2), &bi(0)));
}

#[test]
fn collision_walk_detects_blocker() {
    let mut b = Board::new();
    place(&mut b, PieceKind::Rook, Color::Black, 10, 0);
    assert!(b.get_collision(&bi(10), &bi(0), &bi(10), &bi(3)));
    place(&mut b, PieceKind::Pawn, Color::White, 10, 1);
    assert!(!b.get_collision(&bi(10), &bi(0), &bi(10), &bi(3)));
    // The blocker itself, standing at an endpoint, does not block:
    assert!(b.get_collision(&bi(10), &bi(0), &bi(10), &bi(1)));
}

#[test]
fn collision_walk_works_diagonally() {
    let mut b = Board::new();
    assert!(b.get_collision(&bi(10), &bi(10), &bi(14), &bi(14)));
    place(&mut b, PieceKind::Pawn, Color::White, 12, 12);
    assert!(!b.get_collision(&bi(10), &bi(10), &bi(14), &bi(14)));
    // Adjacent squares have no strictly-between square to block:
    assert!(b.get_collision(&bi(10), &bi(10), &bi(11), &bi(11)));
}

#[test]
fn collision_walk_crosses_start_rank() {
    let mut b = Board::new();
    // Walking from rank 0 to rank 3 at file 9 touches (1, 9) and (2, 9);
    // the touch itself materializes the black pawn that then blocks.
    assert!(!b.get_collision(&bi(0), &bi(9), &bi(3), &bi(9)));
    assert_eq!(b.active_pieces().len(), 1);
}

#[test]
fn window_enumerates_legal_destinations_in_order() {
    let mut b = Board::new();
    let rules = PermissiveRules::new();
    place(&mut b, PieceKind::Knight, Color::Black, 10, 10);
    let moves = b.get_legal_moves(&rules, &bi(10), &bi(10), &bi(9), &bi(9), &bi(3));
    let expected: Vec<(BigInt, BigInt)> = vec![
        (bi(9), bi(9)),
        (bi(9), bi(10)),
        (bi(9), bi(11)),
        (bi(10), bi(9)),
        (bi(10), bi(11)),
        (bi(11), bi(9)),
        (bi(11), bi(10)),
        (bi(11), bi(11)),
    ];
    assert_eq!(moves, expected);
}

#[test]
fn window_excludes_same_colored_occupants() {
    let mut b = Board::new();
    let rules = PermissiveRules::new();
    place(&mut b, PieceKind::Rook, Color::Black, 20, 20);
    place(&mut b, PieceKind::Pawn, Color::Black, 20, 21);
    place(&mut b, PieceKind::Pawn, Color::White, 21, 20);
    let moves = b.get_legal_moves(&rules, &bi(20), &bi(20), &bi(20), &bi(20), &bi(2));
    let expected: Vec<(BigInt, BigInt)> = vec![(bi(21), bi(20)), (bi(21), bi(21))];
    assert_eq!(moves, expected);
}

#[test]
fn window_with_nonpositive_zoom_is_empty() {
    let mut b = Board::new();
    let rules = PermissiveRules::new();
    place(&mut b, PieceKind::Rook, Color::Black, 0, 0);
    assert_eq!(
        b.get_legal_moves(&rules, &bi(0), &bi(0), &bi(-5), &bi(-5), &bi(0)),
        Vec::new()
    );
    assert_eq!(
        b.get_legal_moves(&rules, &bi(0), &bi(0), &bi(-5), &bi(-5), &bi(-2)),
        Vec::new()
    );
}

#[test]
fn committed_move_advances_turn_and_gates_versions() {
    let mut b = Board::new();
    let rules = PermissiveRules::new();
    place(&mut b, PieceKind::Knight, Color::Black, 20, 20);
    assert!(b.version_reached(&bi(0)));
    assert!(!b.version_reached(&bi(1)));
    // An illegal request commits nothing:
    assert!(!b.try_move(&rules, &bi(20), &bi(20), &bi(20), &bi(20)));
    assert_eq!(*b.current_turn(), bi(0));
    // A legal one commits and raises the turn:
    assert!(b.try_move(&rules, &bi(20), &bi(20), &bi(21), &bi(20)));
    assert_eq!(*b.current_turn(), bi(1));
    assert!(b.version_reached(&bi(1)));
    assert!(!b.version_reached(&bi(2)));
    // A promotion alone does not advance the turn:
    assert_eq!(b.promote(&bi(21), &bi(20), PieceKind::Queen), Some(0));
    assert_eq!(*b.current_turn(), bi(1));
    assert!(!b.version_reached(&bi(2)));
}

#[test]
fn add_pawns_materializes_both_colors_over_the_span() {
    let mut b = Board::new();
    assert_eq!(b.add_pawns(&bi(0), &bi(2)), Some(0));
    // Files -1, 0 and 1 are touched on both start ranks:
    assert_eq!(b.active_pieces().len(), 6);
    assert_eq!(b.add_pawns(&bi(0), &bi(2)), Some(0));
    assert_eq!(b.active_pieces().len(), 6);
}

#[test]
fn back_rank_setup_places_sixteen_pieces() {
    let mut b = Board::new();
    b.setup_back_ranks();
    assert_eq!(b.active_pieces().len(), 16);
    assert_eq!(b.pieces[8].get_kind(), PieceKind::King);
    assert_eq!(b.pieces[8].get_color(), Color::Black);
    assert_eq!(b.get_piece_at(&bi(0), &bi(4)), Some(8));
    assert_eq!(b.get_piece_at(&bi(7), &bi(4)), Some(9));
    assert_eq!(b.get_piece_at(&bi(7), &bi(0)), Some(1));
}

#[test]
fn huge_coordinates_are_first_class() {
    let mut b = Board::new();
    let big: BigInt = "123456789012345678901234567890".parse().unwrap();
    let id = b
        .place_piece(Piece::new(
            PieceKind::Queen,
            Color::White,
            big.clone(),
            big.clone(),
        ))
        .unwrap();
    assert_eq!(b.get_piece_at(&big, &big), Some(id));
    let target: BigInt = &big + &BigInt::from(1);
    assert_eq!(b.do_move(&big, &big, &target, &big), Some(0));
    assert_eq!(b.get_piece_at(&target, &big), Some(id));
    assert_eq!(b.get_piece_at(&big, &big), None);
}

#[test]
fn negative_file_pawns_materialize() {
    let mut b = Board::new();
    let id = b.get_piece_at(&bi(1), &bi(-1000)).unwrap();
    assert_eq!(b.get_piece_at(&bi(1), &bi(-1000)), Some(id));
    assert_eq!(b.active_pieces().len(), 1);
}
