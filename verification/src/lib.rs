pub mod board;
pub mod explore;
pub mod notation;
pub mod player;
pub mod position;
pub mod search;

use crate::explore::{explore, spec_explore};
use crate::notation::NotationError;
use crate::position::{spec_from_tpgn, Position};
use crate::search::{
    ab_node_count, lemma_negamax_bounds, lemma_node_count_bound, negamax_ab, node_count,
    spec_negamax,
};
use vstd::prelude::*;

verus! {

/// Parses a notation string and scores the position it denotes with the
/// alpha-beta search over the full window (-3, 3), which is exact: the score
/// is the game-theoretic value of the position for the player to move. Also
/// returns how many positions the search visited: exactly the pruned
/// traversal's count, ab_node_count — at least the root, and no more than
/// the exhaustive search would visit. Fails exactly when the notation is
/// rejected, with the same error.
pub fn solve(tpgn: &str) -> (r: Result<(i8, u32), NotationError>)
    ensures
        (r matches Ok(sc) ==> spec_from_tpgn(tpgn@) matches Ok(p) && sc.0 as int == spec_negamax(p)
            && sc.1 == ab_node_count(p, -3, 3) && 1 <= sc.1 <= node_count(p)),
        (r matches Err(e) ==> spec_from_tpgn(tpgn@) == Err::<Position, NotationError>(e)),
{
    let root_position = match Position::from_tpgn(tpgn) {
        Ok(p) => p,
        Err(e) => {
            return Err(e);
        },
    };
    proof {
        lemma_node_count_bound(root_position);
        lemma_negamax_bounds(root_position);
    }
    let mut counter: u32 = 0;
    let score = negamax_ab(&root_position, -3, 3, &mut counter);
    Ok((score, counter))
}

/// The notation of every position reachable from the starting position, one
/// line each, depth-first in row-major move order; the starting position
/// itself is the sentinel line "R".
pub fn list_tpgns() -> (lines: Vec<String>)
    ensures
        lines.deep_view() == spec_explore(Position::root(), Seq::empty()),
{
    let root_position = Position::new();
    let current_tpgn = String::new();
    let mut lines: Vec<String> = Vec::new();
    explore(&root_position, &current_tpgn, &mut lines);
    proof {
        assert(lines.deep_view() =~~= spec_explore(Position::root(), Seq::empty()));
    }
    lines
}

} // verus!
