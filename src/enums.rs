//! Outcomes and failures of board construction and moves.
use vstd::prelude::*;

verus! {

#[derive(Clone, Copy, Debug, PartialEq, Eq, Structural)]
pub enum ChessBoardError {
    InvalidFen(FenError),
    InvalidDeletedStones,
    InvalidMove(MoveError),
    BuildError,
}

#[derive(Clone, Copy, Debug, PartialEq, Eq, Structural)]
pub enum MoveError {
    NoStoneFound,
    InvalidMove,
}

#[derive(Clone, Copy, Debug, PartialEq, Eq, Structural)]
pub enum FenError {
    InvalidFormat,
    InvalidTurn,
    InvalidCastleRules,
    InvalidPassant,
    InvalidStones,
    InvalidHalfMoveClock,
    InvalidFullMoveClock,
}

/// What a completed move did besides moving one stone.
#[derive(Clone, Copy, Debug, PartialEq, Eq, Structural)]
pub enum Move {
    Normal,
    Promotion(PromotionKind),
    Castle(CastlePosition),
    Passant,
}

#[derive(Clone, Copy, Debug, PartialEq, Eq, Structural)]
pub enum PromotionKind {
    Queen,
    Rook,
    Bishop,
    Knight,
}

#[derive(Clone, Copy, Debug, PartialEq, Eq, Structural)]
pub enum CastlePosition {
    KingSide,
    QueenSide,
}

} // verus!
