use chess::boardarray::BoardArray;
use chess::game::ChessGame;
use chess::heap::{EvaluatedMotion, Heap};
use chess::manager::{play_random_motion, BenchRng};
use chess::mask::Mask;
use chess::motion::Motion;
use chess::piece::Parity;
use chess::point::point;
use chess::zobrist::Zobrist;
use rand_chacha::rand_core::{RngCore, SeedableRng};
use rand_chacha::ChaCha8Rng;

const START: &str = "rnbqkbnr/pppppppp/8/8/8/8/PPPPPPPP/RNBQKBNR w KQkq - 0 1";

fn evaluated(evaluation: i32, from: usize, key: u64) -> EvaluatedMotion {
    EvaluatedMotion { evaluation, motion: Motion { from, to: from + 8 }, key }
}

#[test]
fn position_keys_follow_the_seeded_stream() {
    let z = Zobrist::init();
    let mut rng = ChaCha8Rng::seed_from_u64(123);
    assert_eq!(z.zside, rng.next_u64());
    for i in 0..64 {
        for k in 0..12 {
            assert_eq!(z.zpieces[i][k], rng.next_u64());
        }
    }
    for c in 0..16 {
        assert_eq!(z.zcastles[c], rng.next_u64());
    }
    assert_eq!(z.zpassant[0], 0);
    for e in 1..9 {
        assert_eq!(z.zpassant[e], rng.next_u64());
    }
}

#[test]
fn position_keys_differ_from_each_other() {
    let z = Zobrist::init();
    let mut all: Vec<u64> = vec![z.zside];
    for row in z.zpieces.iter() {
        all.extend_from_slice(row);
    }
    all.extend_from_slice(&z.zcastles);
    all.extend_from_slice(&z.zpassant[1..]);
    let n = all.len();
    assert_eq!(n, 793);
    all.sort();
    all.dedup();
    assert_eq!(all.len(), n);
}

#[test]
fn making_a_move_from_an_empty_square_changes_nothing() {
    let g = ChessGame::init(START.to_string());
    let z = Zobrist::init();
    let mut board = g.state.board;
    let mut info = g.state.info;
    let (held_board, held_info) = board.make(20, 70, &z, &mut info);
    assert_eq!(board, g.state.board);
    assert_eq!(held_board, g.state.board);
    assert_eq!(info.zkey, g.state.info.zkey);
    assert_eq!(held_info.zkey, g.state.info.zkey);
    assert_eq!(info.enpassant_mask.raw, g.state.info.enpassant_mask.raw);
    assert_eq!(info.allowed_castles, g.state.info.allowed_castles);
}

#[test]
fn the_null_move_only_clears_the_en_passant_square() {
    let g = ChessGame::init(START.to_string());
    let z = Zobrist::init();
    let mut board = g.state.board;
    let mut info = g.state.info;
    info.enpassant_mask = Mask { raw: 1u64 << 20 };
    let _ = board.make(65, 65, &z, &mut info);
    assert_eq!(board, g.state.board);
    assert_eq!(info.enpassant_mask.raw, 0);
    assert_eq!(info.zkey, g.state.info.zkey);
}

#[test]
fn heap_root_is_what_peek_and_pop_give() {
    let mut h = Heap::default();
    h.push(evaluated(4, 1, 10));
    assert_eq!(h.peek().key, 10);
    h.push(evaluated(4, 2, 20));
    assert_eq!(h.peek().key, 10);
    h.push(evaluated(6, 3, 30));
    assert_eq!(h.peek().key, 30);
    h.push(evaluated(1, 4, 40));
    assert_eq!(h.peek().evaluation, 6);
    let first = h.pop();
    assert_eq!(first.key, 30);
    assert_eq!(h.size, 3);
    assert_eq!(h.peek().evaluation, 4);
    let mut rest = Vec::new();
    while !h.empty() {
        rest.push(h.pop().evaluation);
    }
    assert_eq!(rest, vec![4, 4, 1]);
}

#[test]
fn sifting_a_single_node_leaves_the_heap_alone() {
    let mut h = Heap::default();
    h.push(evaluated(3, 1, 1));
    h.sift(0);
    assert_eq!(h.size, 1);
    assert_eq!(h.peek().key, 1);
}

#[test]
fn looking_ahead_twice_adds_the_plies() {
    for p in [Parity::WHITE, Parity::BLACK] {
        for a in 0..5 {
            for b in 0..5 {
                assert_eq!(p.at_depth(a).at_depth(b), p.at_depth(a + b));
            }
        }
        assert_eq!(p.at_depth(4), p);
        assert_eq!(p.at_depth(7), p.not());
        assert_eq!(p.at_depth(-3), p);
    }
}

#[test]
fn counting_squares_of_unions_and_complements() {
    let a = Mask { raw: 0x00ff_0000_0000_f00f };
    let b = Mask { raw: 0x0f0f_0000_0000_0ff0 };
    let union = Mask { raw: a.raw | b.raw };
    let both = Mask { raw: a.raw & b.raw };
    assert_eq!(union.bit_count() + both.bit_count(), a.bit_count() + b.bit_count());
    assert_eq!(a.get_not().bit_count(), 64 - a.bit_count());
    assert_eq!(a.bit_count(), a.raw.count_ones());
    assert_eq!(Mask { raw: 0 }.get_not().bit_count(), 64);
}

#[test]
fn the_first_square_is_the_trailing_zero_count() {
    for raw in [1u64, 6, 0x8000_0000_0000_0000, 0x0010_0000_0400_0000, u64::MAX] {
        let m = Mask { raw };
        assert_eq!(m.as_index(), raw.trailing_zeros() as usize);
    }
    assert_eq!(Mask { raw: 0 }.as_index(), 0);
    for i in 0..64 {
        assert_eq!(Mask::from_index(i).as_index(), i);
    }
}

#[test]
fn a_point_comes_back_from_its_mask() {
    for y in 0..8 {
        for x in 0..8 {
            let p = point(x, y);
            assert_eq!(Mask::from_point(p).to_point(), Some(p));
        }
    }
}

#[test]
fn adding_an_offset_to_the_mask_of_a_point() {
    let p = point(3, 4);
    for (dx, dy) in [(1, 1), (-3, 2), (4, 0), (5, 0), (0, -5), (-4, -4)] {
        let d = point(dx, dy);
        let moved = Mask::point_add(&Mask::from_point(p), &d);
        let expected = if 3 + dx >= 0 && 3 + dx < 8 && 4 + dy >= 0 && 4 + dy < 8 {
            Mask::from_point(point(3 + dx, 4 + dy)).raw
        } else {
            0
        };
        assert_eq!(moved.raw, expected);
    }
    assert_eq!(Mask::point_add(&Mask { raw: 0 }, &point(1, 1)).raw, 0);
}

#[test]
fn a_bench_generator_plays_from_any_position() {
    let mut g = ChessGame::init(START.to_string());
    let mut rng = BenchRng::seeded(1, 0);
    for _ in 0..6 {
        let listed = if g.state.turn == Parity::WHITE {
            g.state.moves.white_vect.clone()
        } else {
            g.state.moves.black_vect.clone()
        };
        let played = play_random_motion(&mut g.state, &mut rng).unwrap();
        assert!(listed.contains(&played));
    }
    assert_eq!(g.state.held_boards.len(), 6);
}

#[test]
fn a_text_with_a_character_beyond_ascii_is_read() {
    let fen = "\u{e9}7/8/8/8/8/8/8/K6k w - - 0 1";
    assert!(chess::game::fen_loads_check(fen));
    let g = ChessGame::init(fen.to_string());
    assert_eq!(g.state.board[0], 0);
    assert!(g.state.board[56] != 0);
    assert!(g.state.board[63] != 0);
    assert_eq!(g.state.turn, Parity::WHITE);
    assert_eq!(g.state.info.halfmove_clock, 0);
    assert_eq!(g.state.info.fullmove_number, 0);
}

#[test]
fn an_en_passant_field_beyond_ascii_names_no_square() {
    let fen = "4k3/8/8/8/8/8/8/4K3 w - \u{e9} 3 9";
    let g = ChessGame::init(fen.to_string());
    assert_eq!(g.state.info.enpassant_mask.raw, 0);
    assert_eq!(g.state.info.halfmove_clock, 3);
    assert_eq!(g.state.info.fullmove_number, 9);
    let h = ChessGame::init("4k3/8/8/8/8/8/8/4K3 b - e3 0 1".to_string());
    assert_eq!(h.state.info.enpassant_mask.raw, 1u64 << 28);
}

#[test]
fn texts_that_would_be_cut_inside_a_character_are_refused() {
    assert!(!chess::game::fen_loads_check("4k3/8/8/8/8/8/8/4K3 w - a\u{e9} 0 1"));
    assert!(!chess::game::fen_loads_check("4k3/8/8/8/8/8/8/4K3 w K\u{e9}"));
}
