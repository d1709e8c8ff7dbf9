use chess::chessbyte::{ChessByte, SideCheck};
use chess::mask::Mask;
use chess::piece::{parity_to_string, Parity, PieceByte};
use chess::point::{algebraic_to_point, point, Point};

const WHITE_KING: u8 = 0b0000_1101;
const BLACK_ROOK_QUEENSIDE: u8 = 0b0100_0001;
const WHITE_ROOK_KINGSIDE: u8 = 0b0010_1001;

#[test]
fn piece_codes_round_trip() {
    let kinds = [
        PieceByte::ROOK,
        PieceByte::PAWN,
        PieceByte::BISHOP,
        PieceByte::QUEEN,
        PieceByte::KING,
        PieceByte::KNIGHT,
        PieceByte::NONE,
    ];
    for k in kinds {
        assert_eq!(PieceByte::from_u8(k.to_u8()), k);
    }
    assert_eq!(PieceByte::ROOK.to_u8(), 1);
    assert_eq!(PieceByte::KNIGHT.to_u8(), 6);
    assert_eq!(PieceByte::from_u8(7), PieceByte::NONE);
    assert_eq!(PieceByte::KING.with_parity(Parity::WHITE), WHITE_KING);
    assert_eq!(PieceByte::QUEEN.name(), "QUEEN");
}

#[test]
fn opposite_side_twice_is_the_side() {
    for p in [Parity::WHITE, Parity::BLACK, Parity::BOTH, Parity::NONE] {
        assert_eq!(p.not().not(), p);
    }
    assert_eq!(Parity::WHITE.not(), Parity::BLACK);
    assert_eq!(Parity::BOTH.not(), Parity::NONE);
}

#[test]
fn side_after_plies() {
    assert_eq!(Parity::WHITE.at_depth(0), Parity::WHITE);
    assert_eq!(Parity::WHITE.at_depth(-3), Parity::WHITE);
    assert_eq!(Parity::WHITE.at_depth(1), Parity::BLACK);
    assert_eq!(Parity::WHITE.at_depth(5), Parity::BLACK);
    assert_eq!(Parity::BLACK.at_depth(4), Parity::BLACK);
    assert_eq!(Parity::WHITE.at_depth(7), Parity::WHITE.at_depth(9));
}

#[test]
fn side_names_and_codes() {
    assert_eq!(Parity::WHITE.to_u8(), 8);
    assert_eq!(Parity::BLACK.to_u8(), 0);
    assert_eq!(Parity::WHITE.name(), "White");
    assert_eq!(parity_to_string(Parity::WHITE), "WHITE");
    assert_eq!(parity_to_string(Parity::NONE), "BLACK");
    assert!(Parity::BLACK.eq_bool(false));
    assert!(Parity::WHITE.eq_bool(true));
    assert!(Parity::WHITE.into_bool());
    assert!(!Parity::BOTH.into_bool());
}

#[test]
fn board_bytes_read_their_bits() {
    assert!(WHITE_KING.is_king());
    assert!(WHITE_KING.is_white());
    assert!(WHITE_KING.is_w_king());
    assert_eq!(WHITE_KING.get_parity(), Parity::WHITE);
    assert_eq!(WHITE_KING.get_piece(), PieceByte::KING);
    assert_eq!(WHITE_KING.to_letter(), 'K');
    assert!(BLACK_ROOK_QUEENSIDE.is_black());
    assert!(BLACK_ROOK_QUEENSIDE.is_queenside());
    assert!(BLACK_ROOK_QUEENSIDE.is_kingside());
    assert!(!0b0100_0000u8.is_kingside());
    assert!(0b0100_0000u8.is_queenside());
    assert!(0b0100_0000u8.is_sided());
    assert!(!0b0000_0001u8.is_sided());
    assert_eq!(BLACK_ROOK_QUEENSIDE.to_letter(), 'r');
    assert_eq!(BLACK_ROOK_QUEENSIDE.get_directions(), 0b0000_1111);
    assert_eq!(0b0000_0100u8.get_directions(), 0b1111_1111);
    assert_eq!(0u8.get_parity(), Parity::NONE);
    assert!(!0u8.is_piece());
    assert_eq!(0u8.to_letter(), ' ');
    assert!(WHITE_KING.same_parity(&WHITE_ROOK_KINGSIDE));
    assert!(!WHITE_KING.same_parity(&BLACK_ROOK_QUEENSIDE));
}

#[test]
fn unmoved_rooks_can_castle() {
    assert!(WHITE_ROOK_KINGSIDE.is_castleable(WHITE_KING, SideCheck::Kingside));
    assert!(WHITE_ROOK_KINGSIDE.is_castleable(WHITE_KING, SideCheck::Sided));
    assert!(!BLACK_ROOK_QUEENSIDE.is_castleable(WHITE_KING, SideCheck::Queenside));
    let moved_rook = WHITE_ROOK_KINGSIDE | 0b1000_0000;
    assert!(!moved_rook.is_castleable(WHITE_KING, SideCheck::Kingside));
}

#[test]
fn points_and_indices_round_trip() {
    for i in 0..64usize {
        let p = Point::from_index(i);
        assert!(p.valid());
        assert_eq!(p.to_index(), i);
    }
    let p = Point::from_index(10);
    assert_eq!((p.x, p.y), (2, 1));
    assert!(!point(8, 0).valid());
    assert_eq!(point(1, 2).plus(&point(3, 4)), point(4, 6));
    assert_eq!(point(1, 2).minus(&point(3, 4)), point(-2, -2));
    assert_eq!(point(1, -2).times(3), point(3, -6));
}

#[test]
fn algebraic_names_give_points() {
    assert_eq!(algebraic_to_point("e3"), point(4, 3));
    assert_eq!(algebraic_to_point("a8"), point(0, 8));
    assert_eq!(algebraic_to_point("h"), point(7, 1));
    assert_eq!(algebraic_to_point(""), point(0, 1));
}

#[test]
fn masks_of_single_squares() {
    let m = Mask::from_index(10);
    assert_eq!(m.raw, 1u64 << 10);
    assert_eq!(m.as_index(), 10);
    assert_eq!(m.bit_count(), 1);
    assert_eq!(m.to_point(), Some(point(2, 1)));
    assert_eq!(Mask::new_empty().to_point(), None);
    assert_eq!(Mask::new_empty().as_index(), 0);
    assert!(m.eq_index(&10));
    assert!(m.eq_point(&point(2, 1)));
    assert_eq!(Mask::from_point(point(2, 1)), m);
    assert_eq!(Mask::from_point(point(9, 1)).raw, 0);
}

#[test]
fn mask_flipped_twice_is_the_mask() {
    let m = Mask { raw: 0x0000_00ff_0000_1234 };
    assert_eq!(m.flipped().flipped(), m);
    assert_eq!(Mask::from_index(3).flipped(), Mask::from_index(59));
    assert_eq!(Mask::of_column(0).flipped(), Mask::of_column(0));
}

#[test]
fn mask_bits_and_points() {
    let m = Mask { raw: 0b1011 };
    assert_eq!(m.bit_count(), 3);
    let pts = m.to_point_vector();
    assert_eq!(pts, vec![point(0, 0), point(1, 0), point(3, 0)]);
    let parts = m.isolated_bits();
    assert_eq!(parts.len(), 3);
    assert_eq!(parts[2].raw, 0b1000);
    assert!(m.any());
    assert!(Mask::new_empty().none());
    assert_eq!(m.get_not().raw, !0b1011u64);
    assert_eq!(m.or(Mask { raw: 0b0100 }).raw, 0b1111);
    assert_eq!(m.and(Mask { raw: 0b0110 }).raw, 0b0010);
    assert_eq!(m.xor(Mask { raw: 0b0110 }).raw, 0b1101);
    let mut n = m;
    n.shiftl(2);
    assert_eq!(n.raw, 0b101100);
    n.shiftr(2);
    assert_eq!(n.raw, 0b1011);
}

#[test]
fn columns_and_gaps() {
    assert_eq!(Mask::of_column(1).bit_count(), 8);
    assert!(Mask::of_column(1).and(Mask::from_index(57)).any());
    assert_eq!(Mask::get_x_gap(&Mask { raw: 1 }, &Mask { raw: 6 }), 3);
    assert_eq!(Mask::get_x_gap(&Mask::from_index(8), &Mask::from_index(13)), 0);
    let high = Mask::from_index(20);
    let lowest = Mask::from_index(2);
    let (gap, low) = Mask::get_y_gap(&high, &lowest);
    assert_eq!(gap, 3);
    assert_eq!(*low, Mask::from_index(2));
}

#[test]
fn castle_bytes_mark_corners() {
    let all = Mask::from_castle_bytes(0b1111);
    assert!(all.and(Mask::from_index(0)).any());
    assert!(all.and(Mask::from_index(7)).any());
    assert!(all.and(Mask::from_index(56)).any());
    assert!(all.and(Mask::from_index(63)).any());
    assert_eq!(Mask::from_castle_bytes(0).raw, 0);
}
