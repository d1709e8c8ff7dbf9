use chess::evaluation::start_eval;
use chess::evaluator::{i32_to_string, tempo, u64_to_string, EvaluationTerm, Evaluator};
use chess::threats::{king_threat, minor_threat, pawn_safe_threat, restricted_threat, rook_threat, threat_values};
use chess::passed::{compounding_weight, passed, passed_candidate};
use chess::figure::{parity_to_string, King, Knight, Pawn, PieceProperties, PieceType, Rook};
use chess::game::ChessGame;
use chess::imbalance::{bishop_pair, piece_imbalance};
use chess::manager::{manager_step, ManagerAction, ManagerView};
use chess::mask::Mask;
use chess::material::{
    endgame_material, endgame_weighted_position, get_visual_material_weights, material_value_of_index,
    midgame_material, midgame_weighted_position, price_parity, price_piece,
};
use chess::mobility::{bonus, mobility, mobility_area, mobility_single, pinned_direction};
use chess::pawn::{is_double_isolated, midgame_pawn};
use chess::pieces::midgame_pieces;
use chess::piece::{Parity, PieceByte};
use chess::point::point;
use chess::ui::{
    black_kingside_can_castle, black_queenside_can_castle, remap, remap_cha, visual_weight_remap_table,
    white_kingside_can_castle, white_queenside_can_castle,
};

const START: &str = "rnbqkbnr/pppppppp/8/8/8/8/PPPPPPPP/RNBQKBNR w KQkq - 0 1";
const WHITE_PAWN: u8 = 0b0000_1010;
const BLACK_PAWN: u8 = 0b0000_0010;

fn start() -> ChessGame {
    ChessGame::init(START.to_string())
}

#[test]
fn material_of_the_start_position() {
    let g = start();
    let b = &g.state.board;
    assert_eq!(midgame_material(b), 9294);
    assert_eq!(endgame_material(b), 10628);
    assert_eq!(price_parity(b, Parity::WHITE), 9294);
    assert_eq!(price_parity(b, Parity::BLACK), 9294);
    assert_eq!(price_piece(b[0]), 1276);
    assert_eq!(price_piece(b[4]), 0);
    assert_eq!(material_value_of_index(b, 60), 30000);
    assert_eq!(material_value_of_index(b, 3), 2538);
    assert_eq!(material_value_of_index(b, 30), 0);
}

#[test]
fn square_weights_of_the_start_position() {
    let g = start();
    assert_eq!(midgame_weighted_position(&g.state.board), 12);
    assert_eq!(endgame_weighted_position(&g.state.board), -181);
}

#[test]
fn visual_weights_are_seen_from_the_piece_side() {
    let white_king = get_visual_material_weights(0b0000_1101);
    let black_king = get_visual_material_weights(0b0000_0101);
    assert_eq!(white_king[60], 198);
    assert_eq!(black_king[4], 198);
    assert_eq!(white_king[0], 59);
    let white_pawn = get_visual_material_weights(WHITE_PAWN);
    assert_eq!(white_pawn[52], 16);
    assert_eq!(get_visual_material_weights(0)[17], 0);
}

#[test]
fn pawn_structure_scores() {
    let mut lone = [0u8; 64];
    lone[52] = WHITE_PAWN;
    assert_eq!(midgame_pawn(&lone), -18);
    let mut pair = [0u8; 64];
    pair[52] = WHITE_PAWN;
    pair[53] = WHITE_PAWN;
    assert_eq!(midgame_pawn(&pair), 42);
    let mut doubled = [0u8; 64];
    doubled[36] = WHITE_PAWN;
    doubled[52] = WHITE_PAWN;
    doubled[20] = BLACK_PAWN;
    assert!(is_double_isolated(&doubled, 36));
    assert!(!is_double_isolated(&doubled, 52));
    assert!(!is_double_isolated(&lone, 52));
}

#[test]
fn imbalance_and_bishop_pair() {
    let mut b = [0u8; 64];
    b[0] = 0b0000_1110;
    b[10] = WHITE_PAWN;
    assert_eq!(piece_imbalance(&b), 255);
    b[20] = 0b0000_0011;
    assert_eq!(piece_imbalance(&b), 255);
    b[30] = 0b0000_1100;
    assert_eq!(piece_imbalance(&b), 529);
    assert_eq!(bishop_pair(&b), 0);
    assert_eq!(bishop_pair(&start().state.board), 1438);
}

#[test]
fn mobility_of_the_start_position() {
    let g = start();
    let b = &g.state.board;
    let m = &g.state.moves;
    assert_eq!(mobility_area(b, 60), 0);
    assert_eq!(mobility_area(b, 52), 0);
    assert_eq!(mobility_area(b, 36), 1);
    assert_eq!(mobility_area(b, 17), 0);
    assert_eq!(pinned_direction(b, 52), 0);
    assert_eq!(mobility(b, 57, m), 2);
    assert_eq!(mobility(b, 58, m), 0);
    assert_eq!(mobility_single(b, 59, m), 1);
    assert_eq!(mobility_single(b, 60, m), 0);
    assert_eq!(bonus(b, m), -172);
}

#[test]
fn pieces_score_of_bare_kings() {
    let g = ChessGame::init("4k3/8/8/8/8/8/8/4K3 w - - 0 1".to_string());
    assert_eq!(midgame_pieces(&g.state.board, 0, &g.state.moves), 0);
}

#[test]
fn evaluation_sums_terms_and_scales_by_clock() {
    let mut e = Evaluator { eval: 0, scores: Vec::new() };
    e.push("material", 10, -3);
    e.push("tempo", 5, 0);
    assert_eq!(e.scores.len(), 2);
    assert_eq!(e.scores[0].name, "material");
    let mut late = e.copy();
    e.finalize(0);
    assert_eq!(e.eval, 12);
    late.finalize(50);
    assert_eq!(late.eval, 0);
    let mut neg = Evaluator { eval: 7, scores: Vec::new() };
    neg.finalize(250);
    assert_eq!(neg.eval, -7);
}

#[test]
fn term_text_and_numbers() {
    let t = EvaluationTerm { white_score: 5, black_score: -3, name: "mobility".to_string() };
    assert_eq!(t.text(), "mobility\tW5\tB-3");
    assert_eq!(t.copy().name, "mobility");
    assert_eq!(u64_to_string(0), "0");
    assert_eq!(u64_to_string(1234567890), "1234567890");
    assert_eq!(i32_to_string(-2147483648), "-2147483648");
    assert_eq!(i32_to_string(42), "42");
}

#[test]
fn tempo_favours_the_side_to_move() {
    assert_eq!(tempo(Parity::WHITE), 28);
    assert_eq!(tempo(Parity::BLACK), -28);
    assert_eq!(tempo(Parity::BOTH), -28);
}

#[test]
fn castling_right_bits() {
    assert!(white_kingside_can_castle(0b0100));
    assert!(white_queenside_can_castle(0b1000));
    assert!(black_kingside_can_castle(0b0001));
    assert!(black_queenside_can_castle(0b0010));
    assert!(!white_kingside_can_castle(0b1011));
    assert!(!black_queenside_can_castle(0b1101));
}

#[test]
fn remapping_and_shading_ranges() {
    assert_eq!(remap_cha(0, 255), 0);
    assert_eq!(remap_cha(u64::MAX / 255, 255), 1);
    assert_eq!(remap_cha(1000, 1000), 0);
    assert_eq!(remap(0, (-23, 40), (0, 100)), 36);
    assert_eq!(remap(-23, (-23, 40), (0, 100)), 0);
    assert_eq!(remap(40, (-23, 40), (0, 100)), 100);
    assert_eq!(remap(5, (10, 0), (0, 100)), 50);
    assert_eq!(remap(7, (0, -2), (0, 1)), 7 / -2);
    assert_eq!(visual_weight_remap_table(PieceByte::KING), (-1, 327));
    assert_eq!(visual_weight_remap_table(PieceByte::KNIGHT), (-201, 58));
    assert_eq!(visual_weight_remap_table(PieceByte::NONE), (0, 0));
}

fn view() -> ManagerView {
    ManagerView {
        worker_present: false,
        worker_running: false,
        turn: Parity::WHITE,
        last_turn: Parity::WHITE,
        white_moves_empty: false,
        black_moves_empty: false,
        game_over: false,
        human_player: Parity::WHITE,
        benchmode: false,
        player_for_turn: false,
    }
}

#[test]
fn driving_loop_decisions() {
    let d = manager_step(&view());
    assert_eq!(d.action, ManagerAction::AwaitHuman);
    assert!(!d.game_over && !d.refresh_eval && !d.collect_worker);
    let d = manager_step(&ManagerView { benchmode: true, ..view() });
    assert_eq!(d.action, ManagerAction::PlayRandom);
    let d = manager_step(&ManagerView { white_moves_empty: true, ..view() });
    assert!(d.game_over);
    assert_eq!(d.action, ManagerAction::ShowGameOver);
    let d = manager_step(&ManagerView { turn: Parity::BLACK, player_for_turn: true, ..view() });
    assert!(d.refresh_eval);
    assert_eq!(d.last_turn, Parity::BLACK);
    assert_eq!(d.action, ManagerAction::StartWorker);
    let d = manager_step(&ManagerView { worker_present: true, worker_running: true, ..view() });
    assert_eq!(d.action, ManagerAction::ReportSearch);
    assert!(!d.collect_worker);
    let d = manager_step(&ManagerView { worker_present: true, white_moves_empty: true, turn: Parity::BLACK, human_player: Parity::NONE, ..view() });
    assert!(!d.game_over);
    assert!(d.collect_worker);
    assert!(!d.refresh_eval);
    assert_eq!(d.action, ManagerAction::Idle);
}

fn props(x: i32, y: i32, ptype: PieceType) -> PieceProperties {
    PieceProperties { parity: false, pos: point(x, y), ptype, has_moved: false }
}

#[test]
fn figure_moves_on_a_bare_board() {
    let empty = Mask::new_empty();
    let rook = Rook { props: props(0, 0, PieceType::ROOK) };
    assert_eq!(rook.get_moves(&empty, &empty, &empty).bit_count(), 14);
    let enemy = Mask::from_index(3);
    let r = rook.get_moves(&empty, &enemy, &enemy);
    assert_eq!(r.bit_count(), 10);
    assert!(r.and(enemy).any());
    assert!(r.and(Mask::from_index(4)).none());
    let king = King { props: props(0, 0, PieceType::KING) };
    assert_eq!(king.get_moves(&empty, &empty, &empty).raw, (1 << 1) | (1 << 8) | (1 << 9));
    assert_eq!(king.get_moves(&Mask::from_index(1), &empty, &Mask::from_index(1)).raw, (1 << 8) | (1 << 9));
    let knight = Knight { props: props(0, 0, PieceType::KNIGHT) };
    assert_eq!(knight.get_moves(&empty, &empty, &empty).raw, (1 << 10) | (1 << 17));
    let own = Mask::from_index(10);
    assert_eq!(knight.get_moves(&own, &empty, &own).raw, 1 << 17);
}

#[test]
fn figure_properties_are_kept() {
    let mut rook = Rook { props: props(0, 0, PieceType::ROOK) };
    let moved = PieceProperties { has_moved: true, ..props(3, 4, PieceType::ROOK) };
    rook.set_props(moved);
    assert!(rook.get_props() == moved);
    assert!(rook.get_props().has_moved);
}

#[test]
fn start_position_evaluation() {
    let mut g = start();
    let e = start_eval(&mut g.state);
    let names: Vec<&str> = e.scores.iter().map(|t| t.name.as_str()).collect();
    assert_eq!(
        names,
        vec!["Material", "Weights", "PImbalance", "BImbalance", "Pawn", "Pieces", "Mobility", "Threats", "Passed", "Tempo"]
    );
    assert_eq!((e.scores[0].white_score, e.scores[0].black_score), (9294, -9294));
    assert_eq!((e.scores[1].white_score, e.scores[1].black_score), (12, -12));
    assert_eq!((e.scores[3].white_score, e.scores[3].black_score), (89, -89));
    assert_eq!((e.scores[6].white_score, e.scores[6].black_score), (-172, 172));
    assert_eq!((e.scores[7].white_score, e.scores[7].black_score), (0, 0));
    assert_eq!((e.scores[8].white_score, e.scores[8].black_score), (0, 0));
    assert_eq!((e.scores[9].white_score, e.scores[9].black_score), (28, 0));
    for t in &e.scores[..9] {
        assert_eq!(t.white_score, -t.black_score);
    }
    assert_eq!(e.eval, 28);
    let again = start_eval(&mut g.state);
    assert_eq!(again.eval, 28);
    assert_eq!(again.scores.len(), 10);
}

#[test]
fn evaluation_is_scaled_by_the_clock_and_needs_kings() {
    let mut g = ChessGame::init("rnbqkbnr/pppppppp/8/8/8/8/PPPPPPPP/RNBQKBNR b KQkq - 50 1".to_string());
    let e = start_eval(&mut g.state);
    assert_eq!((e.scores[9].white_score, e.scores[9].black_score), (0, -28));
    assert_eq!(e.eval, 0);
    let mut h = start();
    h.state.info.king_indices = [0, 4];
    let e = start_eval(&mut h.state);
    assert_eq!(e.eval, i32::MIN);
    assert!(e.scores.is_empty());
}

#[test]
fn threat_counts() {
    let g = ChessGame::init("4k3/8/8/2b1n3/3P4/2P5/8/4K3 w - - 0 1".to_string());
    let m = &g.state.moves;
    let ms = &g.state.info.maskset;
    assert_eq!(pawn_safe_threat(&g.state.board, m, ms), 2);
    assert_eq!(king_threat(m, ms, 35), 2);
    assert_eq!(king_threat(m, ms, 60), 0);
    assert_eq!(restricted_threat(m), 1);
    let s = start();
    assert_eq!(pawn_safe_threat(&s.state.board, &s.state.moves, &s.state.info.maskset), 0);
    assert_eq!(restricted_threat(&s.state.moves), 0);
}

#[test]
fn figure_pawn_moves() {
    let empty = Mask::new_empty();
    let pawn = Pawn { props: props(3, 6, PieceType::PAWN) };
    let moves = pawn.get_moves(&empty, &empty, &empty, None);
    assert_eq!(moves.raw, (1 << 43) | (1 << 35));
    let enemy = Mask::from_index(42);
    let moves = pawn.get_moves(&empty, &enemy, &enemy, Some(point(4, 5)));
    assert_eq!(moves.raw, (1 << 43) | (1 << 35) | (1 << 42) | (1 << 44));
    let blocker = Mask::from_index(43);
    assert_eq!(pawn.get_moves(&empty, &empty, &blocker, None).raw, 0);
    let moved = Pawn { props: PieceProperties { has_moved: true, ..props(3, 6, PieceType::PAWN) } };
    assert_eq!(moved.get_moves(&empty, &empty, &empty, None).raw, 1 << 43);
    assert_eq!(parity_to_string(true), "BLACK");
    assert_eq!(parity_to_string(false), "WHITE");
}

#[test]
fn threat_values_mark_reached_and_covered_black_pieces() {
    let g = ChessGame::init("4k3/8/8/2b1n3/3P4/2P5/8/4K3 w - - 0 1".to_string());
    let vals = threat_values(&g.state.moves, &g.state.info.maskset);
    assert_eq!(vals[26], 1);
    assert_eq!(vals[28], 1);
    assert_eq!(vals[0], 0);
    assert_eq!(vals[35], 0);
}

#[test]
fn a_knight_threatening_a_rook() {
    let g = ChessGame::init("4k3/8/8/3r4/8/4N3/8/4K3 w - - 0 1".to_string());
    let vals = threat_values(&g.state.moves, &g.state.info.maskset);
    assert_eq!(vals[27], 1);
    assert_eq!(minor_threat(&g.state.board, &g.state.moves, &g.state.info.maskset, &vals), 88);
    assert_eq!(rook_threat(&g.state.board, &g.state.moves, &g.state.info.maskset, &vals), 0);
    let mut covered = vals;
    covered[27] = -1;
    assert_eq!(minor_threat(&g.state.board, &g.state.moves, &g.state.info.maskset, &covered), 0);
}

#[test]
fn compounding_weights_walk_up_the_column() {
    let mut vals = [0i8; 64];
    assert_eq!(compounding_weight(&vals, 27), 0);
    vals[19] = -1;
    vals[11] = -1;
    assert_eq!(compounding_weight(&vals, 27), 29);
    vals[3] = -1;
    assert_eq!(compounding_weight(&vals, 27), 51);
    assert_eq!(compounding_weight(&vals, 5), 0);
    assert_eq!(compounding_weight(&vals, 45), 0);
}

#[test]
fn passed_pawns_are_weighed() {
    let g = ChessGame::init("4k3/8/8/3P4/8/8/8/4K3 w - - 0 1".to_string());
    let vals = threat_values(&g.state.moves, &g.state.info.maskset);
    assert!(passed_candidate(&g.state.board, &g.state.info.maskset, &vals, 27));
    assert_eq!(passed(&g.state.board, &g.state.moves, &g.state.info.maskset), 29);
    let low = ChessGame::init("4k3/8/8/8/8/8/3P4/4K3 w - - 0 1".to_string());
    assert_eq!(passed(&low.state.board, &low.state.moves, &low.state.info.maskset), -23);
    let blocked = ChessGame::init("4k3/8/2p5/3P4/8/8/8/4K3 w - - 0 1".to_string());
    let bvals = threat_values(&blocked.state.moves, &blocked.state.info.maskset);
    assert!(!passed_candidate(&blocked.state.board, &blocked.state.info.maskset, &bvals, 27));
    assert_eq!(passed(&blocked.state.board, &blocked.state.moves, &blocked.state.info.maskset), 0);
    let pair = ChessGame::init("4k3/8/2p5/2PP4/8/8/8/4K3 w - - 0 1".to_string());
    assert_eq!(passed(&pair.state.board, &pair.state.moves, &pair.state.info.maskset), 69);
}
