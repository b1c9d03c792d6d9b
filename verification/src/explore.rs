use crate::notation::{coord_char, push_coord};
use crate::position::{spec_can_play, spec_play, GameState, Position};
use vstd::prelude::*;
use vstd::string::{StrSliceExecFns, StringExecFns};

verus! {

/// Every reachable position at or below p, as notation lines in depth-first,
/// row-major order: first the line for p itself — the sentinel "R" when the
/// prefix is empty — then, while the game is in progress, the lines below
/// each legal move in cell order. Terminal positions are emitted but not
/// expanded.
pub open spec fn spec_explore(p: Position, prefix: Seq<char>) -> Seq<Seq<char>>
    decreases 9 - p.moves_played, 10int,
{
    let line = if prefix.len() == 0 {
        seq!['R']
    } else {
        prefix
    };
    seq![line] + if p.state is InProgress && p.moves_played < 9 {
        spec_explore_from(p, prefix, 0)
    } else {
        Seq::empty()
    }
}

/// The notation lines below the legal moves of p among cells k..9.
pub open spec fn spec_explore_from(p: Position, prefix: Seq<char>, k: int) -> Seq<Seq<char>>
    decreases 9 - p.moves_played, 9 - k,
    when p.moves_played < 9 && 0 <= k <= 9
{
    if k >= 9 {
        Seq::empty()
    } else {
        let x = k / 3;
        let y = k % 3;
        let rest = spec_explore_from(p, prefix, k + 1);
        if spec_can_play(p, x, y) {
            spec_explore(
                spec_play(p, x, y),
                prefix + seq![coord_char(x as u8), coord_char(y as u8)],
            ) + rest
        } else {
            rest
        }
    }
}

/// Appends the notation line of p and of every position reachable below it,
/// depth-first and row-major, to out; tpgn is the notation of p itself.
pub fn explore(position: &Position, tpgn: &String, out: &mut Vec<String>)
    requires
        position.wf(),
    ensures
        final (out).deep_view() == old(out).deep_view() + spec_explore(*position, tpgn@),
    decreases 9 - position.moves_played,
{
    let line = if tpgn.unicode_len() == 0 {
        String::from_str("R")
    } else {
        tpgn.clone()
    };
    proof {
        reveal_strlit("R");
        assert("R"@ =~= seq!['R']);
    }
    out.push(line);
    match position.state {
        GameState::InProgress => {},
        _ => {
            proof {
                assert(out.deep_view() =~~= old(out).deep_view() + spec_explore(
                    *position,
                    tpgn@,
                ));
            }
            return ;
        },
    }
    let mut k: usize = 0;
    proof {
        assert(out.deep_view() + spec_explore_from(*position, tpgn@, 0) =~~= old(
            out,
        ).deep_view() + spec_explore(*position, tpgn@));
    }
    while k < 9
        invariant
            position.wf(),
            position.state is InProgress,
            position.moves_played < 9,
            k <= 9,
            out.deep_view() + spec_explore_from(*position, tpgn@, k as int) == old(
                out,
            ).deep_view() + spec_explore(*position, tpgn@),
        decreases 9 - k,
    {
        let x = k / 3;
        let y = k % 3;
        if position.can_play(x, y) {
            let next_position = position.play(x, y);
            let mut next_tpgn = tpgn.clone();
            push_coord(&mut next_tpgn, x as u8);
            push_coord(&mut next_tpgn, y as u8);
            proof {
                assert(next_tpgn@ =~= tpgn@ + seq![
                    coord_char((k as int / 3) as u8),
                    coord_char((k as int % 3) as u8),
                ]);
            }
            explore(&next_position, &next_tpgn, out);
            proof {
                assert(out.deep_view() + spec_explore_from(*position, tpgn@, k as int + 1) =~~= old(
                    out,
                ).deep_view() + spec_explore(*position, tpgn@));
            }
        }
        k = k + 1;
    }
    proof {
        assert(out.deep_view() =~~= old(out).deep_view() + spec_explore(*position, tpgn@));
    }
}

} // verus!
