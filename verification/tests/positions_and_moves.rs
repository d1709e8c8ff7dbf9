use chess::boardarray::BoardArray;
use chess::game::{fen_loads_check, ChessGame};
use chess::heap::{EvaluatedMotion, Heap};
use chess::mask::Mask;
use chess::maskset::MaskSet;
use chess::motion::Motion;
use chess::piece::Parity;
use chess::point::point;
use chess::searchtree::SearchTree;
use chess::state::State;
use chess::zobrist::{CachedPosition, Zobrist};

const START: &str = "rnbqkbnr/pppppppp/8/8/8/8/PPPPPPPP/RNBQKBNR w KQkq - 0 1";
const CASTLING: &str = "r3k2r/8/8/8/8/8/8/R3K2R w KQkq - 0 1";

fn game(fen: &str) -> ChessGame {
    ChessGame::init(fen.to_string())
}

fn motion(from: usize, to: usize) -> Motion {
    Motion { from, to }
}

#[test]
fn start_position_is_read() {
    let g = game(START);
    let b = &g.state.board;
    assert_eq!(b[0], 0b0100_0001);
    assert_eq!(b[4], 0b0000_0101);
    assert_eq!(b[7], 0b0010_0001);
    assert_eq!(b[52], 0b0000_1010);
    assert_eq!(b[60], 0b0000_1101);
    assert_eq!(b[63], 0b0010_1001);
    assert_eq!(b[30], 0);
    assert_eq!(g.state.turn, Parity::WHITE);
    assert_eq!(g.state.info.allowed_castles, 0b1111);
    assert_eq!(g.state.info.enpassant_mask.raw, 0);
    assert_eq!(g.state.info.halfmove_clock, 0);
    assert_eq!(g.state.info.fullmove_number, 1);
    assert_eq!(g.state.info.king_indices, [60, 4]);
    assert_eq!(g.state.get_king(Parity::WHITE), 60);
    assert_eq!(g.state.get_king(Parity::BLACK), 4);
    assert_eq!(g.selected, 65);
    assert!(!g.game_over);
    assert!(!g.paused);
    assert_eq!(g.human_player, Parity::NONE);
    assert_eq!(g.visual_weights, Some([0i32; 64]));
}

#[test]
fn position_fields_are_read() {
    let g = game("4k3/8/8/8/8/8/8/4K3 b - d6 12 34");
    assert_eq!(g.state.turn, Parity::BLACK);
    assert_eq!(g.state.info.allowed_castles, 0);
    assert_eq!(g.state.info.enpassant_mask, Mask::from_point(point(3, 6)));
    assert_eq!(g.state.info.halfmove_clock, 12);
    assert_eq!(g.state.info.fullmove_number, 34);
    assert_eq!(g.state.info.king_indices, [60, 4]);
}

#[test]
fn start_position_has_twenty_moves_a_side() {
    let g = game(START);
    let m = &g.state.moves;
    assert_eq!(m.white_vect.len(), 20);
    assert_eq!(m.black_vect.len(), 20);
    assert_eq!(m.white_moves[52], vec![motion(52, 36), motion(52, 44)]);
    assert_eq!(m.white_moves[57], vec![motion(57, 40), motion(57, 42)]);
    assert!(m.white_moves[60].is_empty());
    assert!(m.white_moves[12].is_empty());
    assert_eq!(m.black_moves[1], vec![motion(1, 16), motion(1, 18)]);
    let expected_flat = 0xffffu64 << 32;
    assert_eq!(m.white_flat.raw & !expected_flat, 0);
    assert_eq!(m.white_flat.bit_count(), 16);
    assert_eq!(m.white_defensive_moves[57], vec![motion(57, 51)]);
}

#[test]
fn moves_from_board_agree_with_the_state() {
    let g = game(START);
    let ms = MaskSet::from_board(&g.state.board);
    assert_eq!(ms.white.bit_count(), 16);
    assert_eq!(ms.black.bit_count(), 16);
    assert_eq!(ms.all.raw, ms.white.raw | ms.black.raw);
    let moves = g.state.board.get_motions(&ms, &Mask::new_empty(), Some(15));
    assert_eq!(moves.white_vect, g.state.moves.white_vect);
    assert_eq!(moves.black_vect, g.state.moves.black_vect);
    assert_eq!(g.state.board.get_kings(), [60, 4]);
    assert!(!g.state.board.king_in_check(60, &ms, &Mask::new_empty()));
}

#[test]
fn make_then_unmake_gives_back_the_position() {
    let mut g = game(START);
    let board0 = g.state.board;
    let info0 = g.state.info;
    let vect0 = g.state.moves.white_vect.clone();
    g.state.make_motion(&motion(52, 36));
    assert_eq!(g.state.board[52], 0);
    assert_eq!(g.state.board[36], 0b1000_1010);
    assert_eq!(g.state.turn, Parity::BLACK);
    assert_eq!(g.state.info.enpassant_mask, Mask::from_index(44));
    assert_eq!(g.state.info.allowed_castles, 0b1111);
    assert_ne!(g.state.info.zkey, info0.zkey);
    assert_eq!(g.state.held_boards.len(), 1);
    assert_eq!(g.state.held_info.len(), 1);
    g.state.unmake_last(true);
    assert_eq!(g.state.board, board0);
    assert_eq!(g.state.info.zkey, info0.zkey);
    assert_eq!(g.state.info.enpassant_mask, info0.enpassant_mask);
    assert_eq!(g.state.info.allowed_castles, info0.allowed_castles);
    assert_eq!(g.state.info.king_indices, info0.king_indices);
    assert_eq!(g.state.turn, Parity::WHITE);
    assert!(g.state.held_boards.is_empty());
    assert_eq!(g.state.moves.white_vect, vect0);
}

#[test]
fn make_move_takes_the_first_square_of_the_mask() {
    let mut g = game(START);
    g.state.make_move(57, &Mask::from_index(42));
    assert_eq!(g.state.board[57], 0);
    assert_eq!(g.state.board[42] & 0b0000_1111, 0b0000_1110);
    assert_eq!(g.state.turn, Parity::BLACK);
}

#[test]
fn castling_moves_are_offered_and_played() {
    let mut g = game(CASTLING);
    let king = &g.state.moves.white_moves[60];
    assert_eq!(king.len(), 7);
    assert_eq!(king[5], motion(60, 63));
    assert_eq!(king[6], motion(60, 56));
    assert!(!g.state.moves.white_vect.contains(&motion(60, 63)));
    g.state.make_motion(&motion(60, 63));
    assert_eq!(g.state.board[60], 0);
    assert_eq!(g.state.board[63], 0);
    assert_eq!(g.state.board[62], 0b1000_1101);
    assert_eq!(g.state.board[61], 0b1010_1001);
    assert_eq!(g.state.info.allowed_castles, 0b0011);
    assert_eq!(g.state.info.king_indices[0], 62);
}

#[test]
fn a_pinned_piece_has_no_moves() {
    let g = game("4r1k1/8/8/8/8/8/4N3/4K3 w - - 0 1");
    assert!(g.state.moves.white_moves[52].is_empty());
    assert!(!g.state.moves.white_moves[60].is_empty());
}

#[test]
fn flipped_board_turned_twice_is_the_board() {
    let g = game("4r1k1/8/8/8/8/8/4N3/4K3 w - - 0 1");
    let once = g.state.board.flipped();
    assert_ne!(once, g.state.board);
    assert_eq!(once.flipped(), g.state.board);
    assert_eq!(once[4], 0b0000_0101);
    assert_eq!(once[60], 0b0000_1001);
    assert_eq!(once[12], 0b0000_0110);
    assert_eq!(once.get_kings(), [62, 4]);
    let partial = g.state.partial_flipped();
    assert_eq!(partial.board, once);
    assert_eq!(partial.allowed_castles, 0);
    assert_eq!(partial.king_indices, [62, 4]);
    assert_eq!(partial.maskset, MaskSet::from_board(&once));
    let start = game(START);
    assert_eq!(start.state.board.flipped(), start.state.board);
}

#[test]
fn human_clicks_select_and_move() {
    let mut g = game(START);
    g.register_players(None, None);
    assert_eq!(g.human_player, Parity::BOTH);
    g.human_input(point(4, 6), Parity::WHITE);
    assert_eq!(g.selected, 52);
    g.human_input(point(4, 4), Parity::WHITE);
    assert_eq!(g.selected, 65);
    assert_eq!(g.state.board[52], 0);
    assert_eq!(g.state.turn, Parity::BLACK);
    g.human_input(point(4, 1), Parity::WHITE);
    assert_eq!(g.selected, 65);
    g.human_input(point(4, 4), Parity::BLACK);
    assert_eq!(g.selected, 65);
}

#[test]
fn registered_engines_decide_the_human_side() {
    let mut g = game(START);
    g.register_players(Some(Parity::BLACK), None);
    assert_eq!(g.human_player, Parity::WHITE);
    g.register_players(Some(Parity::WHITE), Some(Parity::BLACK));
    assert_eq!(g.human_player, Parity::NONE);
    g.register_players(None, Some(Parity::WHITE));
    assert_eq!(g.human_player, Parity::BLACK);
}

#[test]
fn position_keys_are_repeatable_and_depend_on_the_side() {
    let g = game(START);
    let z1 = Zobrist::init();
    let z2 = Zobrist::init();
    assert_eq!(z1.zside, z2.zside);
    assert_eq!(z1.zpieces, z2.zpieces);
    assert_ne!(z1.zside, 0);
    assert_ne!(z1.zpieces[0][0], z1.zpieces[0][1]);
    assert_eq!(z1.zpassant[0], 0);
    let mut st = State::default();
    st.board = g.state.board;
    st.info.allowed_castles = 15;
    st.turn = Parity::WHITE;
    let white_key = st.zobrist.kof_board(&st);
    st.turn = Parity::BLACK;
    let black_key = st.zobrist.kof_board(&st);
    assert_eq!(white_key ^ black_key, st.zobrist.zside);
    assert_eq!(white_key, g.state.info.zkey);
}

#[test]
fn piece_keys_use_the_low_four_bits() {
    let z = Zobrist::init();
    assert_eq!(Zobrist::index_from_byte(&0b0000_1101), 10);
    assert_eq!(Zobrist::index_from_byte(&0b0000_0001), 0);
    assert_eq!(Zobrist::index_from_byte(&0b0000_0110), 5);
    assert_eq!(z.pieces(&0b1010_1101, 3), z.zpieces[3][10]);
}

#[test]
fn a_saved_position_is_pulled_back() {
    let g = game(START);
    let mut z = Zobrist::init();
    assert!(z.pull(g.state.info.zkey).is_none());
    z.save(CachedPosition { info: g.state.info, moves: g.state.moves.copy(), evaluation: None });
    let got = z.pull(g.state.info.zkey).unwrap();
    assert_eq!(got.info.zkey, g.state.info.zkey);
    assert_eq!(got.moves.white_vect, g.state.moves.white_vect);
    assert!(got.evaluation.is_none());
    assert!(z.pull(g.state.info.zkey ^ 1).is_none());
}

#[test]
fn heap_gives_moves_best_first() {
    let mut h = Heap::default();
    assert!(h.empty());
    for (i, e) in [5, 9, -2, 7, 9].iter().enumerate() {
        h.push(EvaluatedMotion { evaluation: *e, motion: motion(i, i + 8), key: i as u64 });
    }
    assert_eq!(h.size, 5);
    assert_eq!(h.peek().evaluation, 9);
    let mut out = Vec::new();
    while !h.empty() {
        out.push(h.pop().evaluation);
    }
    assert_eq!(out, vec![9, 9, 7, 5, -2]);
    h.push(EvaluatedMotion::default());
    h.clear();
    assert!(h.empty());
}

#[test]
fn heap_positions() {
    assert_eq!(Heap::parent(5), 2);
    assert_eq!(Heap::parent(1), 0);
    assert_eq!(Heap::left(2), 5);
    assert_eq!(Heap::right(2), 6);
}

#[test]
fn evaluated_moves_compare_by_evaluation() {
    let a = EvaluatedMotion { evaluation: 3, motion: motion(1, 2), key: 7 };
    let b = EvaluatedMotion { evaluation: 3, motion: motion(5, 6), key: 8 };
    let c = EvaluatedMotion { evaluation: -1, motion: motion(5, 6), key: 8 };
    assert!(a.eq_eval(&b));
    assert_eq!(a.compare_eval(&b), 0);
    assert_eq!(c.compare_eval(&a), -1);
    assert_eq!(a.compare_eval(&c), 1);
    let d = a.clone_without_key();
    assert_eq!(d.key, 0);
    assert_eq!(d.evaluation, 3);
    assert_eq!(d.motion, motion(1, 2));
}

#[test]
fn bench_mode_plays_a_listed_move() {
    let mut g = game(START);
    let listed = g.state.moves.white_vect.clone();
    let mut rng = chess::manager::BenchRng::seeded(7, 11);
    let played = chess::manager::play_random_motion(&mut g.state, &mut rng).unwrap();
    assert!(listed.contains(&played));
    assert_eq!(g.state.turn, Parity::BLACK);
    assert_eq!(g.state.board[played.from], 0);
    assert_ne!(g.state.board[played.to], 0);
    assert_eq!(g.state.held_boards.len(), 1);
    let reply = chess::manager::play_random_motion(&mut g.state, &mut rng).unwrap();
    assert!(reply.from < 16);
    assert_eq!(g.state.turn, Parity::WHITE);
}

#[test]
fn readable_position_texts() {
    assert!(fen_loads_check(START));
    assert!(fen_loads_check(CASTLING));
    assert!(fen_loads_check("4k3/8/8/8/8/8/8/4K3 w - - 0"));
    assert!(!fen_loads_check("4k3/8/8/8/8/8/8/4K3 w - -"));
    assert!(!fen_loads_check("4k3/8/8/8/8/8/8/4K3 w"));
    assert!(!fen_loads_check("rnbqkbnr/pppppppp/8/8/8/8/PPPPPPPP/RNBQKBNR"));
    assert!(!fen_loads_check("8/8/8/8/8/8/8/8 w - - 0 1"));
    assert!(!fen_loads_check("4k3/8/8/8/8/8/8/8 w - - 0 1"));
    assert!(!fen_loads_check("8/8/8/8/8/8/8/8/k/K w - - 0 1"));
    assert!(fen_loads_check("4k3/8/8/8/8/8/8/4K3 w - \u{e9} 0 1"));
    assert!(!fen_loads_check(""));
}

#[test]
fn listed_moves_never_land_on_own_pieces() {
    for fen in [START, CASTLING, "4r1k1/8/8/8/8/8/4N3/4K3 w - - 0 1", "rnbqkbnr/pppp1ppp/8/4p3/4P3/8/PPPP1PPP/RNBQKBNR w KQkq - 0 2"] {
        let g = game(fen);
        let b = &g.state.board;
        for m in &g.state.moves.white_vect {
            assert!(b[m.to] & 0b0000_1000 == 0, "{:?}", m);
        }
        for m in &g.state.moves.black_vect {
            assert!(b[m.to] & 0b0000_0111 == 0 || b[m.to] & 0b0000_1000 != 0, "{:?}", m);
        }
    }
}

#[test]
fn search_tree_follows_the_path() {
    let mut t = SearchTree::new(Parity::WHITE);
    assert!(t.children.is_empty() && t.stack.is_empty() && !t.highlight);
    SearchTree::leaf(&mut t, Parity::BLACK);
    assert_eq!(t.children.len(), 1);
    assert_eq!(t.stack, vec![0]);
    SearchTree::leaf(&mut t, Parity::WHITE);
    assert_eq!(t.children[0].children.len(), 1);
    assert_eq!(t.children[0].children[0].value, Parity::WHITE);
    assert_eq!(t.stack, vec![0, 0]);
    SearchTree::highlight_last(&mut t);
    assert!(t.children[0].children[0].highlight);
    assert!(!t.children[0].highlight);
    SearchTree::back(&mut t, false);
    assert_eq!(t.stack, vec![0]);
    assert_eq!(t.children[0].children.len(), 1);
    SearchTree::leaf(&mut t, Parity::BLACK);
    assert_eq!(t.stack, vec![0, 1]);
    assert_eq!(t.children[0].children.len(), 2);
    SearchTree::back(&mut t, true);
    assert_eq!(t.stack, vec![0]);
    assert_eq!(t.children[0].children.len(), 1);
    SearchTree::back(&mut t, true);
    assert!(t.stack.is_empty());
    assert!(t.children.is_empty());
    SearchTree::leaf(&mut t, Parity::BLACK);
    SearchTree::back(&mut t, false);
    SearchTree::highlight_last(&mut t);
    assert!(t.children[0].highlight);
}
