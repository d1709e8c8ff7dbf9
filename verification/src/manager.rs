use vstd::prelude::*;
use voxell_rng::rng::XoRoShiRo128;
use crate::boardarray::make_ok;
use crate::game::move_playable;
use crate::motion::Motion;
use crate::piece::Parity;
use crate::state::{State, made_motion};

verus! {

// The decisions of the game's driving loop. The loop itself, which talks to the display,
// runs the engine's worker and sleeps, hands the decisions what it sees and carries out the
// action that comes back.

/// What the driving loop sees at the start of a round.
#[derive(Clone, Copy, Debug, PartialEq, Eq, Structural)]
pub struct ManagerView {
    pub worker_present: bool,
    pub worker_running: bool,
    pub turn: Parity,
    pub last_turn: Parity,
    pub white_moves_empty: bool,
    pub black_moves_empty: bool,
    pub game_over: bool,
    pub human_player: Parity,
    pub benchmode: bool,
    pub player_for_turn: bool,
}

/// What the driving loop does in a round.
#[derive(Clone, Copy, Debug, PartialEq, Eq, Structural)]
pub enum ManagerAction {
    /// Show the finished game.
    ShowGameOver,
    /// Pass on the worker's latest report.
    ReportSearch,
    /// Play a random move for the person (bench mode).
    PlayRandom,
    /// Show the position and take the person's input.
    AwaitHuman,
    /// Start the engine's worker on the position.
    StartWorker,
    /// Nothing to do this round.
    Idle,
}

/// The outcome of a round's decisions: whether the game is over, the turn last seen, whether
/// the evaluation must be made again, whether a finished worker is to be collected, and the
/// action.
#[derive(Clone, Copy, Debug, PartialEq, Eq, Structural)]
pub struct ManagerDecision {
    pub game_over: bool,
    pub last_turn: Parity,
    pub refresh_eval: bool,
    pub collect_worker: bool,
    pub action: ManagerAction,
}

/// The decisions of a round: with no worker about, a side to move without moves ends the
/// game, and a new turn calls for a new evaluation; a finished game is shown; a running worker
/// is reported on; otherwise a finished worker is collected, and then the person moves (at
/// random in bench mode) when it is their turn, or the engine's worker is started when the
/// side to move has one.
pub open spec fn decide(v: ManagerView) -> ManagerDecision {
    let no_worker = !v.worker_present;
    let over = v.game_over || (no_worker && v.turn == Parity::WHITE && v.white_moves_empty) || (no_worker
        && v.turn == Parity::BLACK && v.black_moves_empty);
    let fresh = v.turn != v.last_turn && no_worker;
    let last = if fresh { v.turn } else { v.last_turn };
    let action = if over {
        ManagerAction::ShowGameOver
    } else if v.worker_running {
        ManagerAction::ReportSearch
    } else if v.turn == v.human_player || v.human_player == Parity::BOTH {
        if v.benchmode {
            ManagerAction::PlayRandom
        } else {
            ManagerAction::AwaitHuman
        }
    } else if v.player_for_turn {
        ManagerAction::StartWorker
    } else {
        ManagerAction::Idle
    };
    ManagerDecision {
        game_over: over,
        last_turn: last,
        refresh_eval: fresh,
        collect_worker: !over && !v.worker_running && v.worker_present,
        action,
    }
}

/// Whether the game is over once a finished worker has been collected: it is when it was, or
/// when the worker reports that it did not come up with a move.
pub fn after_collect(game_over: bool, worker_found_move: bool) -> (r: bool)
    ensures
        r == (game_over || !worker_found_move),
{
    if !worker_found_move {
        true
    } else {
        game_over
    }
}

/// Take the decisions of a round.
pub fn manager_step(v: &ManagerView) -> (r: ManagerDecision)
    ensures
        r == decide(*v),
{
    let mut game_over = v.game_over;
    if !v.worker_present && v.turn == Parity::WHITE && v.white_moves_empty {
        game_over = true;
    }
    if !v.worker_present && v.turn == Parity::BLACK && v.black_moves_empty {
        game_over = true;
    }
    let mut last_turn = v.last_turn;
    let mut refresh_eval = false;
    if v.turn != v.last_turn && !v.worker_present {
        refresh_eval = true;
        last_turn = v.turn;
    }
    if game_over {
        return ManagerDecision {
            game_over,
            last_turn,
            refresh_eval,
            collect_worker: false,
            action: ManagerAction::ShowGameOver,
        };
    }
    if v.worker_running {
        return ManagerDecision {
            game_over,
            last_turn,
            refresh_eval,
            collect_worker: false,
            action: ManagerAction::ReportSearch,
        };
    }
    let collect_worker = v.worker_present;
    let action = if v.turn == v.human_player || v.human_player == Parity::BOTH {
        if v.benchmode {
            ManagerAction::PlayRandom
        } else {
            ManagerAction::AwaitHuman
        }
    } else if v.player_for_turn {
        ManagerAction::StartWorker
    } else {
        ManagerAction::Idle
    };
    ManagerDecision { game_over, last_turn, refresh_eval, collect_worker, action }
}

#[verifier::external_type_specification]
#[verifier::external_body]
pub struct ExXoRoShiRo128(XoRoShiRo128);

/// The generator that bench mode draws its moves with. It is made only from a seed whose first
/// word is not zero, so its state is never all zero: each step of the generator is an invertible
/// map of its state, and a state that is not zero never becomes zero.
pub struct BenchRng {
    rng: XoRoShiRo128,
}

/// `voxell_rng::rng::XoRoShiRo128::wrap`: a generator whose state is the two words given. The
/// function panics when the first word is zero, which `requires` leaves out.
#[verifier::external_body]
fn wrap_seed(first: u64, second: u64) -> (r: XoRoShiRo128)
    requires
        first != 0,
{
    XoRoShiRo128::wrap([first, second])
}

impl BenchRng {
    /// A generator seeded with the two words given; the first one must not be zero.
    pub fn seeded(first: u64, second: u64) -> (r: BenchRng)
        requires
            first != 0,
    {
        BenchRng { rng: wrap_seed(first, second) }
    }
}

/// `voxell_rng::select_random::selector_one_immut` with the `XoRoShiRo128` generator of a
/// `BenchRng`: an item of the slice drawn with the generator (which advances), `None` for an
/// empty slice. Which item comes out rests on the generator's state and is not stated. The
/// function draws until a word reaches a threshold; a `BenchRng` generator's state is never
/// all zero, so its words do not stay at zero and the drawing ends.
#[verifier::external_body]
fn select_motion(motions: &[Motion], rng: &mut BenchRng) -> (r: Option<Motion>)
    ensures
        r.is_some() == (motions@.len() > 0),
        r matches Some(m) ==> motions@.contains(m),
{
    voxell_rng::select_random::selector_one_immut(motions, &mut rng.rng).copied()
}

/// The list of all moves of the side to move (black's for any side but white).
pub open spec fn side_to_move_moves(st: &State) -> Seq<Motion> {
    if st.turn == Parity::WHITE {
        st.moves.white_vect@
    } else {
        st.moves.black_vect@
    }
}

/// Bench mode: make a move of the side to move drawn at random from its list of moves. The
/// move drawn is returned when it can be made on the board; otherwise nothing changes.
pub fn play_random_motion(state: &mut State, rng: &mut BenchRng) -> (r: Option<Motion>)
    requires
        old(state).wf(),
        side_to_move_moves(old(state)).len() > 0,
    ensures
        final(state).wf(),
        match r {
            Some(m) => side_to_move_moves(old(state)).contains(m) && made_motion(old(state), final(state), m),
            None => *final(state) == *old(state),
        },
        (forall|k: int|
            0 <= k < side_to_move_moves(old(state)).len() ==> make_ok(
                old(state).board@,
                #[trigger] side_to_move_moves(old(state))[k].from as int,
                side_to_move_moves(old(state))[k].to as int,
            )) ==> r is Some,
{
    let motions = state.moves.parity_vect(state.turn);
    let picked = select_motion(motions.as_slice(), rng);
    match picked {
        Some(m) => {
            if move_playable(&state.board, m.from, m.to) {
                state.make_motion(&m);
                Some(m)
            } else {
                proof {
                    let k = choose|k: int| 0 <= k < motions@.len() && motions@[k] == m;
                    assert(side_to_move_moves(old(state))[k] == m);
                }
                None
            }
        },
        None => None,
    }
}

} // verus!
