//! The side to move.
use vstd::prelude::*;

verus! {

#[derive(Clone, Copy, Debug, PartialEq, Eq, Structural)]
pub enum Turn {
    White,
    Black,
}

impl Turn {
    /// The other side.
    pub open spec fn other(self) -> Turn {
        match self {
            Turn::White => Turn::Black,
            Turn::Black => Turn::White,
        }
    }

    pub fn not(self) -> (r: Turn)
        ensures
            r == self.other(),
    {
        match self {
            Turn::White => Turn::Black,
            Turn::Black => Turn::White,
        }
    }
}

/// The side that a FEN turn field names.
pub open spec fn turn_of_field(s: Seq<char>) -> Option<Turn> {
    if s == seq!['w'] {
        Some(Turn::White)
    } else if s == seq!['b'] {
        Some(Turn::Black)
    } else {
        None
    }
}

/// The FEN turn field of a side.
pub open spec fn turn_field(t: Turn) -> Seq<char> {
    match t {
        Turn::White => seq!['w'],
        Turn::Black => seq!['b'],
    }
}

/// Reads the turn field of a FEN string: `w` or `b`.
pub fn fen_to_turn(field: &str) -> (r: Result<Turn, crate::enums::FenError>)
    ensures
        r matches Ok(t) ==> turn_of_field(field@) == Some(t),
        r matches Err(e) ==> turn_of_field(field@) is None && e == crate::enums::FenError::InvalidTurn,
{
    if field.unicode_len() == 1 {
        let c = field.get_char(0);
        if c == 'w' {
            proof {
                assert(field@ =~= seq!['w']);
            }
            return Ok(Turn::White);
        } else if c == 'b' {
            proof {
                assert(field@ =~= seq!['b']);
            }
            return Ok(Turn::Black);
        }
    }
    Err(crate::enums::FenError::InvalidTurn)
}

} // verus!
