pub mod piece;
pub mod chessbyte;
pub mod point;
pub mod bits;
pub mod mask;
pub mod maskset;
pub mod motion;
pub mod heap;
pub mod moves;
pub mod state;
pub mod boardarray;
pub mod evaluator;
pub mod zobrist;
pub mod legal;
pub mod material;
pub mod pawn;
pub mod mobility;
pub mod imbalance;
pub mod pieces;
pub mod ui;
pub mod game;
pub mod figure;
pub mod manager;
pub mod threats;
pub mod passed;
pub mod evaluation;
pub mod searchtree;
