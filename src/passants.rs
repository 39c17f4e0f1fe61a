//! The en-passant field of FEN.
use vstd::prelude::*;
use crate::enums::FenError;
use crate::position::{Position, parse_square, square_name};

verus! {

/// The en-passant target that a FEN field names: `-` for none, otherwise a
/// square such as `e3`.
pub open spec fn passant_of_field(s: Seq<char>) -> Option<Option<Position>> {
    if s == seq!['-'] {
        Some(None)
    } else {
        match parse_square(s) {
            Some(p) => Some(Some(p)),
            None => None,
        }
    }
}

/// The FEN field of an en-passant target.
pub open spec fn passant_field(p: Option<Position>) -> Seq<char> {
    match p {
        None => seq!['-'],
        Some(q) => square_name(q),
    }
}

/// Reads the en-passant field of a FEN string.
pub fn fen_to_passant(field: &str) -> (r: Result<Option<Position>, FenError>)
    ensures
        r matches Ok(p) ==> passant_of_field(field@) == Some(p),
        r matches Err(e) ==> passant_of_field(field@) is None && e == FenError::InvalidPassant,
{
    if field.unicode_len() == 1 && field.get_char(0) == '-' {
        proof {
            assert(field@ =~= seq!['-']);
        }
        return Ok(None);
    }
    proof {
        if field@ == seq!['-'] {
            assert(field@.len() == 1 && field@[0] == '-');
        }
    }
    match Position::from_str(field) {
        Ok(p) => Ok(Some(p)),
        Err(_) => Err(FenError::InvalidPassant),
    }
}

} // verus!
