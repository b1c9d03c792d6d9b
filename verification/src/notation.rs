use vstd::prelude::*;
use vstd::string::StringExecFns;

verus! {

/// Why a notation string was rejected, or a replayed move refused.
#[derive(Clone, Copy, Debug, PartialEq, Eq, Structural)]
pub enum NotationError {
    /// The string has odd length: only whole coordinate pairs are accepted.
    IncompleteNotation,
    /// The string is longer than 18 characters, the most nine moves can take.
    NotationTooLong,
    /// A character is not an ASCII decimal digit.
    InvalidCharacter,
    /// A digit in 3..=9: syntactically a digit, but naming no cell of a 3x3
    /// board.
    InvalidCoordinate,
    /// A replayed move falls on an occupied cell or in a terminal position.
    IllegalMove,
}

/// Is c one of the ten ASCII decimal digits?
pub open spec fn is_digit_char(c: char) -> bool {
    c == '0' || c == '1' || c == '2' || c == '3' || c == '4' || c == '5' || c == '6' || c == '7'
        || c == '8' || c == '9'
}

/// Is c a digit naming a coordinate on a 3x3 board?
pub open spec fn is_coord_char(c: char) -> bool {
    c == '0' || c == '1' || c == '2'
}

/// The coordinate a digit character names (meaningful for '0', '1', '2').
pub open spec fn coord_val(c: char) -> u8 {
    if c == '0' {
        0
    } else if c == '1' {
        1
    } else {
        2
    }
}

/// The digit character of a coordinate (meaningful for 0, 1, 2).
pub open spec fn coord_char(d: u8) -> char {
    if d == 0 {
        '0'
    } else if d == 1 {
        '1'
    } else {
        '2'
    }
}

/// One character read as a board coordinate: a digit in range yields the
/// coordinate, a digit out of range and a non-digit are distinct errors.
pub open spec fn spec_char_coord(c: char) -> Result<u8, NotationError> {
    if is_coord_char(c) {
        Ok(coord_val(c))
    } else if is_digit_char(c) {
        Err(NotationError::InvalidCoordinate)
    } else {
        Err(NotationError::InvalidCharacter)
    }
}

/// A sequence of digit pairs read left to right into coordinate pairs; the
/// first offending character decides the error.
pub open spec fn spec_parse_pairs(s: Seq<char>) -> Result<Seq<(u8, u8)>, NotationError>
    decreases s.len(),
{
    if s.len() == 0 {
        Ok(Seq::empty())
    } else if s.len() == 1 {
        Err(NotationError::IncompleteNotation)
    } else {
        match spec_char_coord(s[0]) {
            Err(e) => Err(e),
            Ok(x) => match spec_char_coord(s[1]) {
                Err(e) => Err(e),
                Ok(y) => match spec_parse_pairs(s.skip(2)) {
                    Err(e) => Err(e),
                    Ok(rest) => Ok(seq![(x, y)] + rest),
                },
            },
        }
    }
}

/// A whole notation string read into its move list. The length is checked
/// first: it must be even and at most 18 characters; then every character
/// must be a digit naming a coordinate in 0..3, read left to right.
pub open spec fn spec_parse_tpgn(s: Seq<char>) -> Result<Seq<(u8, u8)>, NotationError> {
    if s.len() % 2 != 0 {
        Err(NotationError::IncompleteNotation)
    } else if s.len() > 18 {
        Err(NotationError::NotationTooLong)
    } else {
        spec_parse_pairs(s)
    }
}

/// The notation of a move list: the two coordinate digits of each move, in
/// order.
pub open spec fn spec_tpgn_of_moves(ms: Seq<(u8, u8)>) -> Seq<char>
    decreases ms.len(),
{
    if ms.len() == 0 {
        Seq::empty()
    } else {
        seq![coord_char(ms[0].0), coord_char(ms[0].1)] + spec_tpgn_of_moves(ms.skip(1))
    }
}

/// One character read as a board coordinate.
fn char_to_coord(c: char) -> (r: Result<u8, NotationError>)
    ensures
        r == spec_char_coord(c),
{
    if c == '0' {
        Ok(0)
    } else if c == '1' {
        Ok(1)
    } else if c == '2' {
        Ok(2)
    } else if c == '3' || c == '4' || c == '5' || c == '6' || c == '7' || c == '8' || c == '9' {
        Err(NotationError::InvalidCoordinate)
    } else {
        Err(NotationError::InvalidCharacter)
    }
}

/// Reads a notation string into its list of coordinate pairs, exactly as
/// spec_parse_tpgn describes: an odd length, a length over 18, a non-digit
/// character and an out-of-range digit are each rejected with their own
/// error, and nothing is replayed here.
pub fn parse_tpgn(tpgn: &str) -> (r: Result<Vec<(u8, u8)>, NotationError>)
    ensures
        (r matches Ok(ms) ==> spec_parse_tpgn(tpgn@) == Ok::<Seq<(u8, u8)>, NotationError>(ms@)),
        (r matches Err(e) ==> spec_parse_tpgn(tpgn@) == Err::<Seq<(u8, u8)>, NotationError>(e)),
{
    let n = tpgn.unicode_len();
    if n % 2 != 0 {
        return Err(NotationError::IncompleteNotation);
    }
    if n > 18 {
        return Err(NotationError::NotationTooLong);
    }
    let mut moves: Vec<(u8, u8)> = Vec::new();
    let mut i: usize = 0;
    proof {
        assert(tpgn@.skip(0) =~= tpgn@);
        if spec_parse_pairs(tpgn@) is Ok {
            assert(moves@ + spec_parse_pairs(tpgn@)->Ok_0 =~= spec_parse_pairs(tpgn@)->Ok_0);
        }
    }
    while i < n
        invariant
            n == tpgn@.len(),
            n % 2 == 0,
            n <= 18,
            i % 2 == 0,
            i <= n,
            spec_parse_pairs(tpgn@) == (match spec_parse_pairs(tpgn@.skip(i as int)) {
                Ok(rest) => Ok::<Seq<(u8, u8)>, NotationError>(moves@ + rest),
                Err(e) => Err::<Seq<(u8, u8)>, NotationError>(e),
            }),
        decreases n - i,
    {
        proof {
            assert(tpgn@.skip(i as int).len() >= 2);
            assert(tpgn@.skip(i as int)[0] == tpgn@[i as int]);
            assert(tpgn@.skip(i as int)[1] == tpgn@[i as int + 1]);
            assert(tpgn@.skip(i as int).skip(2) =~= tpgn@.skip(i as int + 2));
        }
        let c1 = tpgn.get_char(i);
        let c2 = tpgn.get_char(i + 1);
        let x = match char_to_coord(c1) {
            Ok(d) => d,
            Err(e) => {
                return Err(e);
            },
        };
        let y = match char_to_coord(c2) {
            Ok(d) => d,
            Err(e) => {
                return Err(e);
            },
        };
        proof {
            let tail2 = spec_parse_pairs(tpgn@.skip(i as int + 2));
            if tail2 is Ok {
                assert(moves@ + (seq![(x, y)] + tail2->Ok_0) =~= moves@.push((x, y))
                    + tail2->Ok_0);
            }
        }
        moves.push((x, y));
        i = i + 2;
    }
    proof {
        assert(tpgn@.skip(n as int) =~= Seq::<char>::empty());
        assert(moves@ + Seq::<(u8, u8)>::empty() =~= moves@);
    }
    Ok(moves)
}

/// Appends the digit character of one coordinate.
pub(crate) fn push_coord(out: &mut String, d: u8)
    requires
        d < 3,
    ensures
        final (out)@ == old(out)@ + seq![coord_char(d)],
{
    proof {
        reveal_strlit("0");
        reveal_strlit("1");
        reveal_strlit("2");
    }
    if d == 0 {
        out.append("0");
        assert("0"@ =~= seq![coord_char(d)]);
    } else if d == 1 {
        out.append("1");
        assert("1"@ =~= seq![coord_char(d)]);
    } else {
        out.append("2");
        assert("2"@ =~= seq![coord_char(d)]);
    }
}

/// Writes a move list back out as its notation string, exactly as
/// spec_tpgn_of_moves describes.
pub fn to_tpgn(moves: &Vec<(u8, u8)>) -> (s: String)
    requires
        forall|k: int| 0 <= k < moves@.len() ==> moves@[k].0 < 3 && moves@[k].1 < 3,
    ensures
        s@ == spec_tpgn_of_moves(moves@),
{
    let mut out = String::new();
    let mut j: usize = 0;
    proof {
        assert(moves@.skip(0) =~= moves@);
        assert(out@ + spec_tpgn_of_moves(moves@) =~= spec_tpgn_of_moves(moves@));
    }
    while j < moves.len()
        invariant
            j <= moves@.len(),
            forall|k: int| 0 <= k < moves@.len() ==> moves@[k].0 < 3 && moves@[k].1 < 3,
            out@ + spec_tpgn_of_moves(moves@.skip(j as int)) == spec_tpgn_of_moves(moves@),
        decreases moves@.len() - j,
    {
        let (x, y) = moves[j];
        push_coord(&mut out, x);
        push_coord(&mut out, y);
        proof {
            assert(moves@.skip(j as int)[0] == moves@[j as int]);
            assert(moves@.skip(j as int).skip(1) =~= moves@.skip(j as int + 1));
            assert(out@ + spec_tpgn_of_moves(moves@.skip(j as int + 1)) =~= out@
                + spec_tpgn_of_moves(moves@.skip(j as int)).skip(2));
            assert(out@ + spec_tpgn_of_moves(moves@.skip(j as int)).skip(2) =~= spec_tpgn_of_moves(
                moves@,
            ));
        }
        j = j + 1;
    }
    proof {
        assert(moves@.skip(moves@.len() as int) =~= Seq::<(u8, u8)>::empty());
        assert(out@ + Seq::<char>::empty() =~= out@);
    }
    out
}

/// Parsed moves name cells of the board: both coordinates are below 3.
pub proof fn lemma_parse_pairs_bounded(s: Seq<char>)
    requires
        spec_parse_pairs(s) is Ok,
    ensures
        forall|k: int|
            0 <= k < spec_parse_pairs(s)->Ok_0.len() ==> spec_parse_pairs(s)->Ok_0[k].0 < 3
                && spec_parse_pairs(s)->Ok_0[k].1 < 3,
    decreases s.len(),
{
    let ms = spec_parse_pairs(s)->Ok_0;
    if s.len() == 0 {
    } else {
        lemma_parse_pairs_bounded(s.skip(2));
        let rest = spec_parse_pairs(s.skip(2))->Ok_0;
        assert(ms == seq![(coord_val(s[0]), coord_val(s[1]))] + rest);
        assert forall|k: int| 0 <= k < ms.len() implies ms[k].0 < 3 && ms[k].1 < 3 by {
            if k > 0 {
                assert(ms[k] == rest[k - 1]);
            }
        }
    }
}

/// Round trip: any notation string the parser accepts is reproduced,
/// character for character, by writing its move list back out.
pub proof fn lemma_tpgn_round_trip(s: Seq<char>)
    requires
        spec_parse_tpgn(s) is Ok,
    ensures
        spec_tpgn_of_moves(spec_parse_tpgn(s)->Ok_0) == s,
{
    lemma_pairs_round_trip(s);
}

/// Round trip for the pair reader, by induction on the string.
proof fn lemma_pairs_round_trip(s: Seq<char>)
    requires
        spec_parse_pairs(s) is Ok,
    ensures
        spec_tpgn_of_moves(spec_parse_pairs(s)->Ok_0) == s,
    decreases s.len(),
{
    let ms = spec_parse_pairs(s)->Ok_0;
    if s.len() == 0 {
        assert(spec_tpgn_of_moves(ms) =~= s);
    } else {
        lemma_pairs_round_trip(s.skip(2));
        let rest = spec_parse_pairs(s.skip(2))->Ok_0;
        assert(ms == seq![(coord_val(s[0]), coord_val(s[1]))] + rest);
        assert(ms[0] == (coord_val(s[0]), coord_val(s[1])));
        assert(ms.skip(1) =~= rest);
        assert(coord_char(coord_val(s[0])) == s[0]);
        assert(coord_char(coord_val(s[1])) == s[1]);
        assert(spec_tpgn_of_moves(ms) =~= s);
    }
}

} // verus!
