use crate::board::count_cells;
use crate::player::Player;
use crate::position::{lemma_play_preserves_wf, spec_can_play, spec_play, GameState, Position};
use vstd::prelude::*;

verus! {

/// The larger of two integers.
pub open spec fn max2(a: int, b: int) -> int {
    if a >= b {
        a
    } else {
        b
    }
}

/// The game-theoretic value of a position, from the perspective of the
/// player to move: 0 for a draw, the recorded (negative) score for a loss,
/// and otherwise the best, over all legal moves, of the negated value of the
/// position the move reaches — folded over the nine cells in row-major order
/// from a floor of -3, which lies below every value a position reachable
/// through play can take.
pub open spec fn spec_negamax(p: Position) -> int
    decreases 9 - p.moves_played, 10int,
{
    match p.state {
        GameState::Drawn => 0,
        GameState::Lost(s) => s as int,
        GameState::InProgress => if p.moves_played < 9 {
            best_from(p, 0, -3)
        } else {
            -3
        },
    }
}

/// The values of the legal moves among cells k..9 folded over a running
/// best; cell k is (k / 3, k % 3), so the fold is row-major.
pub open spec fn best_from(p: Position, k: int, best: int) -> int
    decreases 9 - p.moves_played, 9 - k,
    when p.moves_played < 9 && 0 <= k <= 9
{
    if k >= 9 {
        best
    } else {
        let x = k / 3;
        let y = k % 3;
        if spec_can_play(p, x, y) {
            best_from(p, k + 1, max2(best, -spec_negamax(spec_play(p, x, y))))
        } else {
            best_from(p, k + 1, best)
        }
    }
}

/// The best over the legal moves among cells k..9 of the negated value of
/// the position the move reaches; -6, below every value, when none of those
/// cells is a legal move.
pub open spec fn tail_best(p: Position, k: int) -> int
    decreases 9 - p.moves_played, 9 - k,
    when p.moves_played < 9 && 0 <= k <= 9
{
    if k >= 9 {
        -6
    } else {
        let x = k / 3;
        let y = k % 3;
        let rest = tail_best(p, k + 1);
        if spec_can_play(p, x, y) {
            max2(-spec_negamax(spec_play(p, x, y)), rest)
        } else {
            rest
        }
    }
}

/// How many positions the exhaustive search visits from p: the position
/// itself plus, while the game is in progress, every node of every legal
/// child's subtree.
pub open spec fn node_count(p: Position) -> nat
    decreases 9 - p.moves_played, 10int,
{
    match p.state {
        GameState::InProgress => if p.moves_played < 9 {
            1 + count_from(p, 0)
        } else {
            1
        },
        _ => 1,
    }
}

/// The nodes of the subtrees rooted at the legal moves among cells k..9.
pub open spec fn count_from(p: Position, k: int) -> nat
    decreases 9 - p.moves_played, 9 - k,
    when p.moves_played < 9 && 0 <= k <= 9
{
    if k >= 9 {
        0
    } else {
        let x = k / 3;
        let y = k % 3;
        if spec_can_play(p, x, y) {
            node_count(spec_play(p, x, y)) + count_from(p, k + 1)
        } else {
            count_from(p, k + 1)
        }
    }
}

/// The value of any structurally sound position lies between -3 and 3: a
/// loss is recorded no earlier than move five, so its score is at least -3,
/// and every in-progress value is a fold of negated such scores from -3.
pub proof fn lemma_negamax_bounds(p: Position)
    requires
        p.wf(),
    ensures
        -3 <= spec_negamax(p) <= 3,
    decreases 9 - p.moves_played, 10int,
{
    match p.state {
        GameState::Drawn => {
        },
        GameState::Lost(s) => {
            let mover = p.player.spec_other();
            let mv = mover.spec_as_int();
            let m = p.moves_played as int;
            assert(count_cells(p.board, mv) >= 3);
            assert(m <= 9);
            if p.moves_played % 2 == 0 {
                assert(mover == Player::Crosses);
                assert(m >= 6);
            } else {
                assert(mover == Player::Noughts);
                assert(m >= 5);
            }
            assert(-3 <= (m + 2) / 2 - 6 <= -1);
        },
        GameState::InProgress => {
            if p.moves_played < 9 {
                lemma_best_from_bounds(p, 0, -3);
            }
        },
    }
}

/// The fold stays between -3 and 3 when its running best does.
proof fn lemma_best_from_bounds(p: Position, k: int, best: int)
    requires
        p.wf(),
        p.moves_played < 9,
        0 <= k <= 9,
        -3 <= best <= 3,
    ensures
        -3 <= best_from(p, k, best) <= 3,
    decreases 9 - p.moves_played, 9 - k,
{
    if k < 9 {
        let x = k / 3;
        let y = k % 3;
        if spec_can_play(p, x, y) {
            lemma_play_preserves_wf(p, x, y);
            lemma_negamax_bounds(spec_play(p, x, y));
            lemma_best_from_bounds(p, k + 1, max2(best, -spec_negamax(spec_play(p, x, y))));
        } else {
            lemma_best_from_bounds(p, k + 1, best);
        }
    }
}

/// The fold from a running best equals the larger of that best and the best
/// over the remaining legal moves.
proof fn lemma_best_from_closed(p: Position, k: int, best: int)
    requires
        p.moves_played < 9,
        0 <= k <= 9,
        -6 <= best,
    ensures
        best_from(p, k, best) == max2(best, tail_best(p, k)),
    decreases 9 - k,
{
    if k < 9 {
        let x = k / 3;
        let y = k % 3;
        if spec_can_play(p, x, y) {
            lemma_best_from_closed(p, k + 1, max2(best, -spec_negamax(spec_play(p, x, y))));
        } else {
            lemma_best_from_closed(p, k + 1, best);
        }
    }
}

/// The best over the legal moves among cells j..9 is at least the negated
/// value reached from any single legal cell k at or after j.
proof fn lemma_tail_ge_at(p: Position, j: int, k: int)
    requires
        p.moves_played < 9,
        0 <= j <= k < 9,
        spec_can_play(p, k / 3, k % 3),
    ensures
        tail_best(p, j) >= -spec_negamax(spec_play(p, k / 3, k % 3)),
    decreases k - j,
{
    if j < k {
        lemma_tail_ge_at(p, j + 1, k);
    }
}

/// The best over the legal moves among cells j..9 is attained by one of
/// them, unless it is the sentinel -6.
proof fn lemma_tail_achieves(p: Position, j: int)
    requires
        p.moves_played < 9,
        0 <= j <= 9,
    ensures
        tail_best(p, j) == -6 || exists|k: int|
            j <= k < 9 && spec_can_play(p, #[trigger] (k / 3), k % 3) && tail_best(p, j)
                == -spec_negamax(spec_play(p, k / 3, k % 3)),
    decreases 9 - j,
{
    if j < 9 {
        lemma_tail_achieves(p, j + 1);
        let rest = tail_best(p, j + 1);
        if spec_can_play(p, j / 3, j % 3) {
            let w = -spec_negamax(spec_play(p, j / 3, j % 3));
            if w >= rest {
                assert(j <= j < 9 && spec_can_play(p, j / 3, j % 3) && tail_best(p, j)
                    == -spec_negamax(spec_play(p, j / 3, j % 3)));
            } else if rest != -6 {
                let k0 = choose|k: int|
                    j + 1 <= k < 9 && spec_can_play(p, #[trigger] (k / 3), k % 3) && rest
                        == -spec_negamax(spec_play(p, k / 3, k % 3));
                assert(j <= k0 < 9 && spec_can_play(p, k0 / 3, k0 % 3) && tail_best(p, j)
                    == -spec_negamax(spec_play(p, k0 / 3, k0 % 3)));
            }
        } else {
            if rest != -6 {
                let k0 = choose|k: int|
                    j + 1 <= k < 9 && spec_can_play(p, #[trigger] (k / 3), k % 3) && rest
                        == -spec_negamax(spec_play(p, k / 3, k % 3));
                assert(j <= k0 < 9 && spec_can_play(p, k0 / 3, k0 % 3) && tail_best(p, j)
                    == -spec_negamax(spec_play(p, k0 / 3, k0 % 3)));
            }
        }
    }
}

/// Zero-sum symmetry: the value of any structurally sound in-progress
/// position equals the best over its legal moves of the negated value of the
/// position the move reaches — no legal move beats it, and some legal move
/// attains it.
pub proof fn lemma_negamax_zero_sum(p: Position)
    requires
        p.wf(),
        p.state is InProgress,
    ensures
        forall|x: int, y: int|
            spec_can_play(p, x, y) ==> -spec_negamax(#[trigger] spec_play(p, x, y))
                <= spec_negamax(p),
        exists|x: int, y: int|
            spec_can_play(p, x, y) && -spec_negamax(#[trigger] spec_play(p, x, y))
                == spec_negamax(p),
{
    assert(p.moves_played < 9);
    lemma_best_from_closed(p, 0, -3);
    // some cell is empty, and its move is bounded by 3 in value, so the best
    // over the legal moves is at least -3 and the floor of the fold is inert
    let (x0, y0): (int, int) = if p.board[0][0] == 0 {
        (0, 0)
    } else if p.board[0][1] == 0 {
        (0, 1)
    } else if p.board[0][2] == 0 {
        (0, 2)
    } else if p.board[1][0] == 0 {
        (1, 0)
    } else if p.board[1][1] == 0 {
        (1, 1)
    } else if p.board[1][2] == 0 {
        (1, 2)
    } else if p.board[2][0] == 0 {
        (2, 0)
    } else if p.board[2][1] == 0 {
        (2, 1)
    } else {
        (2, 2)
    };
    assert(spec_can_play(p, x0, y0));
    let k0 = 3 * x0 + y0;
    assert(k0 / 3 == x0 && k0 % 3 == y0) by (nonlinear_arith)
        requires
            0 <= x0 < 3,
            0 <= y0 < 3,
            k0 == 3 * x0 + y0,
    ;
    lemma_tail_ge_at(p, 0, k0);
    lemma_play_preserves_wf(p, x0, y0);
    lemma_negamax_bounds(spec_play(p, x0, y0));
    assert(tail_best(p, 0) >= -3);
    assert(spec_negamax(p) == tail_best(p, 0));
    assert forall|x: int, y: int| spec_can_play(p, x, y) implies -spec_negamax(
        #[trigger] spec_play(p, x, y),
    ) <= spec_negamax(p) by {
        let k = 3 * x + y;
        assert(k / 3 == x && k % 3 == y) by (nonlinear_arith)
            requires
                0 <= x < 3,
                0 <= y < 3,
                k == 3 * x + y,
        ;
        lemma_tail_ge_at(p, 0, k);
    }
    lemma_tail_achieves(p, 0);
    let kw = choose|k: int|
        0 <= k < 9 && spec_can_play(p, #[trigger] (k / 3), k % 3) && tail_best(p, 0)
            == -spec_negamax(spec_play(p, k / 3, k % 3));
    assert(spec_can_play(p, kw / 3, kw % 3) && -spec_negamax(spec_play(p, kw / 3, kw % 3))
        == spec_negamax(p));
}

/// Terminal base cases of the search: a drawn position is worth exactly 0, a
/// lost position exactly the score its state records, and either search
/// visits exactly the one position.
pub proof fn lemma_negamax_terminal(p: Position)
    ensures
        p.state is Drawn ==> spec_negamax(p) == 0,
        p.state is Lost ==> spec_negamax(p) == p.state->Lost_0 as int,
        !(p.state is InProgress) ==> node_count(p) == 1,
        forall|alpha: int, beta: int|
            !(p.state is InProgress) ==> #[trigger] ab_node_count(p, alpha, beta) == 1,
{
}

/// An upper bound for the size of a search tree with n empty cells: a node
/// has at most nine children.
pub open spec fn cap_cells(n: nat) -> nat
    decreases n,
{
    if n == 0 {
        1
    } else {
        1 + 9 * cap_cells((n - 1) as nat)
    }
}

proof fn lemma_cap_cells_pos(n: nat)
    ensures
        cap_cells(n) >= 1,
    decreases n,
{
    if n > 0 {
        lemma_cap_cells_pos((n - 1) as nat);
    }
}

/// The search from any structurally sound position visits at most
/// cap_cells(9) = 435848050 positions, which fits comfortably in a u32.
pub proof fn lemma_node_count_bound(p: Position)
    requires
        p.wf(),
    ensures
        node_count(p) <= cap_cells((9 - p.moves_played) as nat),
        node_count(p) <= 435848050,
    decreases 9 - p.moves_played, 10int,
{
    lemma_cap_cells_pos((9 - p.moves_played) as nat);
    if p.state is InProgress && p.moves_played < 9 {
        lemma_count_from_bound(p, 0);
    }
    lemma_cap_cells_mono((9 - p.moves_played) as nat, 9);
    lemma_cap_cells_value();
}

proof fn lemma_cap_cells_mono(a: nat, b: nat)
    requires
        a <= b,
    ensures
        cap_cells(a) <= cap_cells(b),
    decreases b,
{
    if a < b {
        lemma_cap_cells_mono(a, (b - 1) as nat);
        lemma_cap_cells_pos((b - 1) as nat);
    }
}

proof fn lemma_cap_cells_value()
    ensures
        cap_cells(9) == 435848050,
{
    assert(cap_cells(0) == 1);
    assert(cap_cells(1) == 10);
    assert(cap_cells(2) == 91);
    assert(cap_cells(3) == 820);
    assert(cap_cells(4) == 7381);
    assert(cap_cells(5) == 66430);
    assert(cap_cells(6) == 597871);
    assert(cap_cells(7) == 5380840);
    assert(cap_cells(8) == 48427561);
    assert(cap_cells(9) == 435848050);
}

proof fn lemma_count_from_bound(p: Position, k: int)
    requires
        p.wf(),
        p.state is InProgress,
        p.moves_played < 9,
        0 <= k <= 9,
    ensures
        count_from(p, k) <= (9 - k) * cap_cells((8 - p.moves_played) as nat),
    decreases 9 - p.moves_played, 9 - k,
{
    let c = cap_cells((8 - p.moves_played) as nat);
    if k < 9 {
        let x = k / 3;
        let y = k % 3;
        lemma_count_from_bound(p, k + 1);
        if spec_can_play(p, x, y) {
            lemma_play_preserves_wf(p, x, y);
            lemma_node_count_bound(spec_play(p, x, y));
        }
        assert((9 - k) * c == (8 - k) * c + c) by (nonlinear_arith);
    } else {
        assert((9 - k) * c == 0) by (nonlinear_arith)
            requires
                k == 9,
        ;
    }
}

/// Exhaustive negamax search: scores the position from the perspective of
/// the player to move, visiting every node of the game tree below it, and
/// advances the counter by one for each position visited.
pub fn negamax(position: &Position, counter: &mut u32) -> (score: i8)
    requires
        position.wf(),
        *old(counter) + node_count(*position) <= u32::MAX,
    ensures
        score as int == spec_negamax(*position),
        *final (counter) == *old(counter) + node_count(*position),
    decreases 9 - position.moves_played,
{
    proof {
        assert(node_count(*position) >= 1);
    }
    *counter = *counter + 1;

    match position.state {
        GameState::Drawn => {
            return 0;
        },
        GameState::Lost(score) => {
            return score;
        },
        GameState::InProgress => {},
    }
    proof {
        assert(position.moves_played < 9);
        lemma_negamax_bounds(*position);
    }
    let mut best: i8 = -3;
    let mut k: usize = 0;
    while k < 9
        invariant
            position.wf(),
            position.state is InProgress,
            position.moves_played < 9,
            k <= 9,
            -3 <= best <= 3,
            best_from(*position, 0, -3) == best_from(*position, k as int, best as int),
            *counter + count_from(*position, k as int) == *old(counter) + node_count(*position),
            *old(counter) + node_count(*position) <= u32::MAX,
        decreases 9 - k,
    {
        let x = k / 3;
        let y = k % 3;
        if position.can_play(x, y) {
            let next_position = position.play(x, y);
            proof {
                lemma_negamax_bounds(next_position);
            }
            let child_score = negamax(&next_position, counter);
            let score = -child_score;
            if score > best {
                best = score;
            }
        }
        k = k + 1;
    }
    best
}

/// The score the alpha-beta search reports for a position, given its window:
/// a terminal position scores as in spec_negamax; otherwise the nine cells
/// are folded in row-major order from a running best of -3 and a running
/// alpha of alpha, stopping at the first cutoff. Wherever the true value lies
/// strictly inside the window this report equals spec_negamax (negamax_ab's
/// contract proves it); outside, it is only a bound.
pub open spec fn spec_negamax_ab(p: Position, alpha: int, beta: int) -> int
    decreases 9 - p.moves_played, 10int,
{
    match p.state {
        GameState::Drawn => 0,
        GameState::Lost(s) => s as int,
        GameState::InProgress => if p.moves_played < 9 {
            ab_best_from(p, 0, -3, alpha, beta)
        } else {
            -3
        },
    }
}

/// The alpha-beta fold of cells k..9 over a running best and a running
/// alpha: each legal cell contributes the negated report of the child,
/// searched with the negated, swapped window; the fold stops as soon as the
/// running alpha reaches beta.
pub open spec fn ab_best_from(p: Position, k: int, best: int, a: int, beta: int) -> int
    decreases 9 - p.moves_played, 9 - k,
    when p.moves_played < 9 && 0 <= k <= 9
{
    if k >= 9 {
        best
    } else {
        let x = k / 3;
        let y = k % 3;
        if spec_can_play(p, x, y) {
            let new_best = max2(best, -spec_negamax_ab(spec_play(p, x, y), -beta, -a));
            let new_a = max2(a, new_best);
            if new_a >= beta {
                new_best
            } else {
                ab_best_from(p, k + 1, new_best, new_a, beta)
            }
        } else {
            ab_best_from(p, k + 1, best, a, beta)
        }
    }
}

/// How many positions the alpha-beta search visits from p, given its window:
/// the position itself plus, cell by cell until the first cutoff, the visits
/// of each legal child's pruned subtree.
pub open spec fn ab_node_count(p: Position, alpha: int, beta: int) -> nat
    decreases 9 - p.moves_played, 10int,
{
    match p.state {
        GameState::InProgress => if p.moves_played < 9 {
            1 + ab_count_from(p, 0, -3, alpha, beta)
        } else {
            1
        },
        _ => 1,
    }
}

/// The visits contributed by cells k..9 of the alpha-beta fold, whose
/// pruning follows the running best and running alpha exactly as
/// ab_best_from folds them.
pub open spec fn ab_count_from(p: Position, k: int, best: int, a: int, beta: int) -> nat
    decreases 9 - p.moves_played, 9 - k,
    when p.moves_played < 9 && 0 <= k <= 9
{
    if k >= 9 {
        0
    } else {
        let x = k / 3;
        let y = k % 3;
        if spec_can_play(p, x, y) {
            let visited = ab_node_count(spec_play(p, x, y), -beta, -a);
            let new_best = max2(best, -spec_negamax_ab(spec_play(p, x, y), -beta, -a));
            let new_a = max2(a, new_best);
            if new_a >= beta {
                visited
            } else {
                visited + ab_count_from(p, k + 1, new_best, new_a, beta)
            }
        } else {
            ab_count_from(p, k + 1, best, a, beta)
        }
    }
}

/// Negamax with an alpha-beta window. The score returned is exactly the
/// report spec_negamax_ab describes, and it relates to the true value
/// fail-soft: it is exact whenever it falls strictly inside the window, a
/// result at or below alpha is an upper bound on the value, and one at or
/// above beta a lower bound. With the full window (-3, 3) the result is
/// always exact, since every value of a structurally sound position lies
/// between -3 and 3. The counter advances by exactly the pruned traversal's
/// visit count, ab_node_count: at least one, and no more than the exhaustive
/// search would visit.
pub fn negamax_ab(position: &Position, alpha: i8, beta: i8, counter: &mut u32) -> (score: i8)
    requires
        position.wf(),
        -3 <= alpha < beta <= 3,
        *old(counter) + node_count(*position) <= u32::MAX,
    ensures
        score as int == spec_negamax_ab(*position, alpha as int, beta as int),
        *final (counter) == *old(counter) + ab_node_count(*position, alpha as int, beta as int),
        *old(counter) + 1 <= *final (counter) <= *old(counter) + node_count(*position),
        -3 <= score <= 3,
        score <= alpha ==> spec_negamax(*position) <= score,
        score >= beta ==> spec_negamax(*position) >= score,
        alpha < score < beta ==> score as int == spec_negamax(*position),
    decreases 9 - position.moves_played,
{
    proof {
        assert(node_count(*position) >= 1);
        lemma_negamax_bounds(*position);
    }
    *counter = *counter + 1;

    match position.state {
        GameState::Drawn => {
            return 0;
        },
        GameState::Lost(score) => {
            return score;
        },
        GameState::InProgress => {},
    }
    proof {
        assert(position.moves_played < 9);
        lemma_best_from_closed(*position, 0, -3);
    }
    let ghost v = spec_negamax(*position);
    let mut best: i8 = -3;
    let mut a: i8 = alpha;
    let mut k: usize = 0;
    while k < 9
        invariant
            position.wf(),
            position.state is InProgress,
            position.moves_played < 9,
            k <= 9,
            -3 <= alpha < beta <= 3,
            v == spec_negamax(*position),
            v == max2(-3, tail_best(*position, 0)),
            -3 <= best <= 3,
            a as int == max2(alpha as int, best as int),
            a < beta,
            best > alpha ==> best as int <= v,
            v <= max2(best as int, tail_best(*position, k as int)),
            ab_best_from(*position, 0, -3, alpha as int, beta as int) == ab_best_from(
                *position,
                k as int,
                best as int,
                a as int,
                beta as int,
            ),
            *counter + ab_count_from(*position, k as int, best as int, a as int, beta as int) == *old(
                counter,
            ) + ab_node_count(*position, alpha as int, beta as int),
            *counter + count_from(*position, k as int) <= *old(counter) + node_count(*position),
            *counter >= *old(counter) + 1,
            *old(counter) + node_count(*position) <= u32::MAX,
        decreases 9 - k,
    {
        let x = k / 3;
        let y = k % 3;
        if position.can_play(x, y) {
            let next_position = position.play(x, y);
            proof {
                lemma_negamax_bounds(next_position);
                assert(count_from(*position, k as int) == node_count(next_position) + count_from(
                    *position,
                    k as int + 1,
                ));
            }
            let child_score = negamax_ab(&next_position, -beta, -a, counter);
            let score = -child_score;
            let ghost vc = spec_negamax(next_position);
            proof {
                lemma_tail_ge_at(*position, 0, k as int);
                assert(tail_best(*position, k as int) == max2(
                    -vc,
                    tail_best(*position, k as int + 1),
                ));
            }
            if score > best {
                best = score;
            }
            if best > a {
                a = best;
            }
            if a >= beta {
                proof {
                    assert(best as int == score as int);
                    assert(child_score <= -beta);
                    assert(vc <= child_score);
                    assert(v >= tail_best(*position, 0) >= -vc >= score as int);
                }
                return best;
            }
        }
        k = k + 1;
    }
    proof {
        assert(tail_best(*position, 9) == -6);
        assert(v <= best as int);
    }
    best
}

} // verus!
