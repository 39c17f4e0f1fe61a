//! Executing a move on a board: taking stones from and returning them to
//! the trash, relocating with capture, and the side effects of en passant,
//! promotion and castling.
use vstd::prelude::*;
use crate::castle_rules::{CastleOptions, CastleRules};
use crate::chess_board::ChessBoard;
use crate::enums::{CastlePosition, ChessBoardError, Move, MoveError, PromotionKind};
use crate::position::Position;
use crate::rules::{Scene, cell, idx, legal_hits, threat_map, turn_color};
use crate::stone::{Color, Kind, Stone, stone_of_tag};
use crate::turns::Turn;

verus! {

/// The stones, the trash, the rights and the en-passant target after a
/// move, and what the move did.
pub struct Placement {
    pub grid: Seq<Option<Stone>>,
    pub trash: Seq<Stone>,
    pub castle: CastleRules,
    pub passant: Option<Position>,
    pub mv: Move,
}

pub open spec fn light(k: Kind) -> Stone {
    Stone::of_spec(Color::Light, k)
}

pub open spec fn dark(k: Kind) -> Stone {
    Stone::of_spec(Color::Dark, k)
}

pub open spec fn at_square(p: Position, x: int, y: int) -> bool {
    p.x == x && p.y == y
}

/// The rights of one side after its rook leaves the queen-side corner.
pub open spec fn without_queen_side(o: CastleOptions) -> CastleOptions {
    match o {
        CastleOptions::BothSides => CastleOptions::KingSide,
        CastleOptions::QueenSide => CastleOptions::NoSide,
        _ => o,
    }
}

/// The rights of one side after its rook leaves the king-side corner.
pub open spec fn without_king_side(o: CastleOptions) -> CastleOptions {
    match o {
        CastleOptions::BothSides => CastleOptions::QueenSide,
        CastleOptions::KingSide => CastleOptions::NoSide,
        _ => o,
    }
}

/// The grid after the stone at `(fx, fy)` goes to `(tx, ty)`.
pub open spec fn shift(g: Seq<Option<Stone>>, fx: int, fy: int, tx: int, ty: int) -> Seq<Option<Stone>> {
    g.update(idx(fx, fy), None).update(idx(tx, ty), cell(g, fx, fy))
}

/// The side effects of a validated move of stone `s` from `from` to `to`,
/// on grid `g` where `s` already stands on `to`, in this order of
/// priority: an en-passant capture, a pawn's double step, a promotion, a
/// castling, a king's or a rook's move that costs castling rights,
/// anything else. All but the double step clear the en-passant target.
pub open spec fn effects(
    g: Seq<Option<Stone>>,
    trash: Seq<Stone>,
    castle: CastleRules,
    passant: Option<Position>,
    s: Stone,
    from: Position,
    to: Position,
) -> Placement {
    let plain = Placement { grid: g, trash, castle, passant: None, mv: Move::Normal };
    if passant == Some(to) {
        let cy = if s.color == Color::Light {
            to.y + 1
        } else {
            to.y - 1
        };
        let taken = if 0 <= cy < 8 {
            cell(g, to.x as int, cy)
        } else {
            None
        };
        match taken {
            Some(v) => Placement {
                grid: g.update(idx(to.x as int, cy), None),
                trash: trash.push(v),
                mv: Move::Passant,
                ..plain
            },
            None => Placement { mv: Move::Passant, ..plain },
        }
    } else if s == light(Kind::Pawn) && from.y == 6 && to.y == 4 {
        Placement { passant: Some(Position { x: to.x, y: 5 }), ..plain }
    } else if s == dark(Kind::Pawn) && from.y == 1 && to.y == 3 {
        Placement { passant: Some(Position { x: to.x, y: 2 }), ..plain }
    } else if s == light(Kind::Pawn) && to.y == 0 {
        Placement {
            grid: g.update(idx(to.x as int, to.y as int), Some(light(Kind::Queen))),
            mv: Move::Promotion(PromotionKind::Queen),
            ..plain
        }
    } else if s == dark(Kind::Pawn) && to.y == 7 {
        Placement {
            grid: g.update(idx(to.x as int, to.y as int), Some(dark(Kind::Queen))),
            mv: Move::Promotion(PromotionKind::Queen),
            ..plain
        }
    } else if s == light(Kind::King) && at_square(from, 4, 7) && at_square(to, 6, 7) {
        Placement {
            grid: shift(g, 7, 7, 5, 7),
            castle: CastleRules { white: CastleOptions::NoSide, ..castle },
            mv: Move::Castle(CastlePosition::KingSide),
            ..plain
        }
    } else if s == light(Kind::King) && at_square(from, 4, 7) && at_square(to, 2, 7) {
        Placement {
            grid: shift(g, 0, 7, 3, 7),
            castle: CastleRules { white: CastleOptions::NoSide, ..castle },
            mv: Move::Castle(CastlePosition::QueenSide),
            ..plain
        }
    } else if s == dark(Kind::King) && at_square(from, 4, 0) && at_square(to, 6, 0) {
        Placement {
            grid: shift(g, 7, 0, 5, 0),
            castle: CastleRules { black: CastleOptions::NoSide, ..castle },
            mv: Move::Castle(CastlePosition::KingSide),
            ..plain
        }
    } else if s == dark(Kind::King) && at_square(from, 4, 0) && at_square(to, 2, 0) {
        Placement {
            grid: shift(g, 0, 0, 3, 0),
            castle: CastleRules { black: CastleOptions::NoSide, ..castle },
            mv: Move::Castle(CastlePosition::QueenSide),
            ..plain
        }
    } else if s == light(Kind::King) {
        Placement { castle: CastleRules { white: CastleOptions::NoSide, ..castle }, ..plain }
    } else if s == dark(Kind::King) {
        Placement { castle: CastleRules { black: CastleOptions::NoSide, ..castle }, ..plain }
    } else if s == light(Kind::Rook) && at_square(from, 0, 7) {
        Placement { castle: CastleRules { white: without_queen_side(castle.white), ..castle }, ..plain }
    } else if s == light(Kind::Rook) && at_square(from, 7, 7) {
        Placement { castle: CastleRules { white: without_king_side(castle.white), ..castle }, ..plain }
    } else if s == dark(Kind::Rook) && at_square(from, 0, 0) {
        Placement { castle: CastleRules { black: without_queen_side(castle.black), ..castle }, ..plain }
    } else if s == dark(Kind::Rook) && at_square(from, 7, 0) {
        Placement { castle: CastleRules { black: without_king_side(castle.black), ..castle }, ..plain }
    } else {
        plain
    }
}

/// The index of the first `s` among the first `n` stones of `t`.
pub open spec fn first_index(t: Seq<Stone>, s: Stone, n: int) -> Option<int>
    decreases n,
{
    if n <= 0 {
        None
    } else {
        match first_index(t, s, n - 1) {
            Some(i) => Some(i),
            None => if t[n - 1] == s {
                Some(n - 1)
            } else {
                None
            },
        }
    }
}

pub open spec fn no_stone() -> ChessBoardError {
    ChessBoardError::InvalidMove(MoveError::NoStoneFound)
}

pub open spec fn illegal() -> ChessBoardError {
    ChessBoardError::InvalidMove(MoveError::InvalidMove)
}

/// Carrying out a move without checking it: from the trash onto a square
/// (`from` absent), from a square into the trash (`to` absent), or from
/// square to square, the stone on the destination going to the trash.
/// Under validation a square-to-square move has its side effects.
pub open spec fn relocate(
    b: ChessBoard,
    piece: Seq<char>,
    from: Option<Position>,
    to: Option<Position>,
) -> Result<Placement, ChessBoardError> {
    let g = b.stones@;
    let t = b.deleted_stones@;
    match from {
        None => match (stone_of_tag(piece), to) {
            (Some(st), Some(dst)) => match first_index(t, st, t.len() as int) {
                Some(i) => {
                    let t1 = t.remove(i);
                    Ok(
                        Placement {
                            grid: g.update(idx(dst.x as int, dst.y as int), Some(st)),
                            trash: match cell(g, dst.x as int, dst.y as int) {
                                Some(o) => t1.push(o),
                                None => t1,
                            },
                            castle: b.castle_rules,
                            passant: b.passant,
                            mv: Move::Normal,
                        },
                    )
                },
                None => Err(no_stone()),
            },
            _ => Err(no_stone()),
        },
        Some(f) => match cell(g, f.x as int, f.y as int) {
            None => Err(no_stone()),
            Some(st) => match to {
                None => Ok(
                    Placement {
                        grid: g.update(idx(f.x as int, f.y as int), None),
                        trash: t.push(st),
                        castle: b.castle_rules,
                        passant: b.passant,
                        mv: Move::Normal,
                    },
                ),
                Some(dst) => {
                    let g2 = shift(g, f.x as int, f.y as int, dst.x as int, dst.y as int);
                    let t2 = match cell(g, dst.x as int, dst.y as int) {
                        Some(o) => t.push(o),
                        None => t,
                    };
                    if b.validation {
                        Ok(effects(g2, t2, b.castle_rules, b.passant, st, f, dst))
                    } else {
                        Ok(
                            Placement {
                                grid: g2,
                                trash: t2,
                                castle: b.castle_rules,
                                passant: b.passant,
                                mv: Move::Normal,
                            },
                        )
                    }
                },
            },
        },
    }
}

/// The outcome of `move_piece`: equal squares do nothing; under validation
/// the tag must name a stone of the side to move, both squares must be
/// given and the destination must be a legal move of the stone on `from`.
pub open spec fn move_outcome(
    b: ChessBoard,
    piece: Seq<char>,
    from: Option<Position>,
    to: Option<Position>,
) -> Result<Placement, ChessBoardError> {
    if from == to {
        Ok(
            Placement {
                grid: b.stones@,
                trash: b.deleted_stones@,
                castle: b.castle_rules,
                passant: b.passant,
                mv: Move::Normal,
            },
        )
    } else if b.validation {
        match stone_of_tag(piece) {
            None => Err(no_stone()),
            Some(st) => if st.color != turn_color(b.turn) {
                Err(illegal())
            } else {
                match (from, to) {
                    (Some(f), Some(dst)) => if legal_hits(
                        b.scene(),
                        f.x as int,
                        f.y as int,
                        dst.x as int,
                        dst.y as int,
                    ) {
                        relocate(b, piece, from, to)
                    } else {
                        Err(illegal())
                    },
                    _ => Err(illegal()),
                }
            },
        }
    } else {
        relocate(b, piece, from, to)
    }
}

/// What `move_piece` does: `b1` is `b0` after moving `piece` from `from`
/// to `to` with result `r`.
pub open spec fn moved(
    b0: ChessBoard,
    b1: ChessBoard,
    piece: Seq<char>,
    from: Option<Position>,
    to: Option<Position>,
    r: Result<Move, ChessBoardError>,
) -> bool {
    &&& (from == to ==> r == Ok::<Move, ChessBoardError>(Move::Normal) && b1 == b0)
    &&& (b0.clocks_linked() ==> b1.clocks_linked())
    &&& match move_outcome(b0, piece, from, to) {
        Err(e) => r == Err::<Move, ChessBoardError>(e) && b1 == b0,
        Ok(pl) => {
            &&& r == Ok::<Move, ChessBoardError>(pl.mv)
            &&& b1.stones@ == pl.grid
            &&& b1.deleted_stones@ == pl.trash
            &&& b1.castle_rules == pl.castle
            &&& b1.passant == pl.passant
            &&& b1.half_move_text == b0.half_move_text
            &&& b1.full_move_text == b0.full_move_text
            &&& b1.half_move_clock == b0.half_move_clock
            &&& b1.full_move_clock == b0.full_move_clock
            &&& b1.is_white_view == b0.is_white_view
            &&& b1.validation == b0.validation
            &&& b1.sync == b0.sync
            &&& if b0.sync && from != to {
                &&& b1.turn == b0.turn.other()
                &&& b1.fen@ == b1.text()
                &&& b1.treat_map@ == threat_map(b1.scene())
            } else {
                &&& b1.turn == b0.turn
                &&& b1.fen == b0.fen
                &&& b1.treat_map == b0.treat_map
            }
        },
    }
}

/// The scene of a board after a synced move.
pub open spec fn placed_scene(pl: Placement, turn: Turn) -> Scene {
    Scene {
        grid: pl.grid,
        threats: Seq::new(64, |i: int| false),
        turn,
        castle: pl.castle,
        passant: pl.passant,
    }
}

fn same_square(a: Option<Position>, b: Option<Position>) -> (r: bool)
    ensures
        r == (a == b),
{
    match (a, b) {
        (None, None) => true,
        (Some(p), Some(q)) => p.x == q.x && p.y == q.y,
        _ => false,
    }
}

fn contains_position(v: &Vec<Position>, p: Position) -> (r: bool)
    ensures
        r == v@.contains(p),
{
    let mut i: usize = 0;
    while i < v.len()
        invariant
            i <= v@.len(),
            forall|j: int| 0 <= j < i ==> v@[j] != p,
        decreases v@.len() - i,
    {
        if v[i].x == p.x && v[i].y == p.y {
            return true;
        }
        i = i + 1;
    }
    false
}

fn find_stone(t: &Vec<Stone>, s: Stone) -> (r: Option<usize>)
    ensures
        r matches Some(i) ==> first_index(t@, s, t@.len() as int) == Some(i as int) && i < t@.len()
            && t@[i as int] == s,
        r is None ==> first_index(t@, s, t@.len() as int) is None,
{
    let mut i: usize = 0;
    while i < t.len()
        invariant
            i <= t@.len(),
            first_index(t@, s, i as int) is None,
        decreases t@.len() - i,
    {
        if t[i] == s {
            proof {
                assert(first_index(t@, s, i + 1) == Some(i as int));
                lemma_first_index_stable(t@, s, i + 1, t@.len() as int);
            }
            return Some(i);
        }
        i = i + 1;
    }
    None
}

proof fn lemma_first_index_stable(t: Seq<Stone>, s: Stone, n: int, m: int)
    requires
        n <= m,
        first_index(t, s, n) is Some,
    ensures
        first_index(t, s, m) == first_index(t, s, n),
    decreases m - n,
{
    if n < m {
        lemma_first_index_stable(t, s, n, m - 1);
    }
}

fn without_queen_side_exec(o: CastleOptions) -> (r: CastleOptions)
    ensures
        r == without_queen_side(o),
{
    match o {
        CastleOptions::BothSides => CastleOptions::KingSide,
        CastleOptions::QueenSide => CastleOptions::NoSide,
        _ => o,
    }
}

fn without_king_side_exec(o: CastleOptions) -> (r: CastleOptions)
    ensures
        r == without_king_side(o),
{
    match o {
        CastleOptions::BothSides => CastleOptions::QueenSide,
        CastleOptions::KingSide => CastleOptions::NoSide,
        _ => o,
    }
}

impl ChessBoard {
    /// Moves the stone at `(fx, fy)` to `(tx, ty)`, replacing what stood there.
    fn shift_stone(&mut self, fx: usize, fy: usize, tx: usize, ty: usize)
        requires
            old(self).wf(),
            fx < 8,
            fy < 8,
            tx < 8,
            ty < 8,
        ensures
            final(self).wf(),
            final(self).stones@ == shift(old(self).stones@, fx as int, fy as int, tx as int, ty as int),
            final(self).deleted_stones == old(self).deleted_stones,
            final(self).castle_rules == old(self).castle_rules,
            final(self).passant == old(self).passant,
            final(self).treat_map == old(self).treat_map,
            final(self).turn == old(self).turn,
            final(self).fen == old(self).fen,
            final(self).half_move_text == old(self).half_move_text,
            final(self).full_move_text == old(self).full_move_text,
            final(self).half_move_clock == old(self).half_move_clock,
            final(self).full_move_clock == old(self).full_move_clock,
            final(self).is_white_view == old(self).is_white_view,
            final(self).validation == old(self).validation,
            final(self).sync == old(self).sync,
    {
        let s = self.take_stone_at(fx, fy);
        self.stones.set(ty * 8 + tx, s);
    }

    /// Applies the side effects of a validated square-to-square move of
    /// `stone`, which already stands on its destination.
    pub fn apply_move_validation_and_effects(&mut self, stone_move: (Stone, Position, Position)) -> (r: Move)
        requires
            old(self).wf(),
            stone_move.1.valid(),
            stone_move.2.valid(),
        ensures
            final(self).wf(),
            ({
                let pl = effects(
                    old(self).stones@,
                    old(self).deleted_stones@,
                    old(self).castle_rules,
                    old(self).passant,
                    stone_move.0,
                    stone_move.1,
                    stone_move.2,
                );
                &&& r == pl.mv
                &&& final(self).stones@ == pl.grid
                &&& final(self).deleted_stones@ == pl.trash
                &&& final(self).castle_rules == pl.castle
                &&& final(self).passant == pl.passant
            }),
            final(self).treat_map == old(self).treat_map,
            final(self).turn == old(self).turn,
            final(self).fen == old(self).fen,
            final(self).half_move_text == old(self).half_move_text,
            final(self).full_move_text == old(self).full_move_text,
            final(self).half_move_clock == old(self).half_move_clock,
            final(self).full_move_clock == old(self).full_move_clock,
            final(self).is_white_view == old(self).is_white_view,
            final(self).validation == old(self).validation,
            final(self).sync == old(self).sync,
    {
        let (stone, from, to) = stone_move;
        let lp = Stone::of(Color::Light, Kind::Pawn);
        let dp = Stone::of(Color::Dark, Kind::Pawn);
        let lk = Stone::of(Color::Light, Kind::King);
        let dk = Stone::of(Color::Dark, Kind::King);
        let lr = Stone::of(Color::Light, Kind::Rook);
        let dr = Stone::of(Color::Dark, Kind::Rook);
        let on_passant = match self.passant {
            Some(p) => p.x == to.x && p.y == to.y,
            None => false,
        };
        if on_passant {
            let taken = match stone.color {
                Color::Light => if to.y + 1 < 8 {
                    self.take_stone_at(to.x, to.y + 1)
                } else {
                    None
                },
                Color::Dark => if to.y >= 1 {
                    self.take_stone_at(to.x, to.y - 1)
                } else {
                    None
                },
            };
            match taken {
                Some(v) => self.deleted_stones.push(v),
                None => {},
            }
            self.passant = None;
            Move::Passant
        } else if stone == lp && from.y == 6 && to.y == 4 {
            self.passant = Some(Position::new(to.x, 5));
            Move::Normal
        } else if stone == dp && from.y == 1 && to.y == 3 {
            self.passant = Some(Position::new(to.x, 2));
            Move::Normal
        } else if stone == lp && to.y == 0 {
            self.passant = None;
            self.stones.set(to.y * 8 + to.x, Some(Stone::of(Color::Light, Kind::Queen)));
            Move::Promotion(PromotionKind::Queen)
        } else if stone == dp && to.y == 7 {
            self.passant = None;
            self.stones.set(to.y * 8 + to.x, Some(Stone::of(Color::Dark, Kind::Queen)));
            Move::Promotion(PromotionKind::Queen)
        } else if stone == lk && from.x == 4 && from.y == 7 && to.x == 6 && to.y == 7 {
            self.shift_stone(7, 7, 5, 7);
            self.passant = None;
            self.castle_rules.white = CastleOptions::NoSide;
            Move::Castle(CastlePosition::KingSide)
        } else if stone == lk && from.x == 4 && from.y == 7 && to.x == 2 && to.y == 7 {
            self.shift_stone(0, 7, 3, 7);
            self.passant = None;
            self.castle_rules.white = CastleOptions::NoSide;
            Move::Castle(CastlePosition::QueenSide)
        } else if stone == dk && from.x == 4 && from.y == 0 && to.x == 6 && to.y == 0 {
            self.shift_stone(7, 0, 5, 0);
            self.passant = None;
            self.castle_rules.black = CastleOptions::NoSide;
            Move::Castle(CastlePosition::KingSide)
        } else if stone == dk && from.x == 4 && from.y == 0 && to.x == 2 && to.y == 0 {
            self.shift_stone(0, 0, 3, 0);
            self.passant = None;
            self.castle_rules.black = CastleOptions::NoSide;
            Move::Castle(CastlePosition::QueenSide)
        } else if stone == lk {
            self.passant = None;
            self.castle_rules.white = CastleOptions::NoSide;
            Move::Normal
        } else if stone == dk {
            self.passant = None;
            self.castle_rules.black = CastleOptions::NoSide;
            Move::Normal
        } else if stone == lr && from.x == 0 && from.y == 7 {
            self.passant = None;
            self.castle_rules.white = without_queen_side_exec(self.castle_rules.white);
            Move::Normal
        } else if stone == lr && from.x == 7 && from.y == 7 {
            self.passant = None;
            self.castle_rules.white = without_king_side_exec(self.castle_rules.white);
            Move::Normal
        } else if stone == dr && from.x == 0 && from.y == 0 {
            self.passant = None;
            self.castle_rules.black = without_queen_side_exec(self.castle_rules.black);
            Move::Normal
        } else if stone == dr && from.x == 7 && from.y == 0 {
            self.passant = None;
            self.castle_rules.black = without_king_side_exec(self.castle_rules.black);
            Move::Normal
        } else {
            self.passant = None;
            Move::Normal
        }
    }
}

impl ChessBoard {
    /// Whether `to` is a legal destination of the stone on `from`.
    fn is_legal(&self, from: &Position, to: &Position) -> (r: bool)
        requires
            self.wf(),
            from.valid(),
            to.valid(),
        ensures
            r == legal_hits(self.scene(), from.x as int, from.y as int, to.x as int, to.y as int),
    {
        let possible_moves = self.possible_moves(from);
        contains_position(&possible_moves, *to)
    }

    /// Moves a stone. `from` absent takes the stone named by `piece` out of
    /// the trash; `to` absent puts the stone on `from` into the trash; with
    /// both, the stone on `to`, if any, goes to the trash. Equal squares do
    /// nothing. Under validation the move must be a legal move of the side
    /// to move and has its side effects; with sync the turn passes, the FEN
    /// is rewritten and the threats are recomputed. A refused move changes
    /// nothing.
    pub fn move_piece(&mut self, piece: &str, from: Option<Position>, to: Option<Position>) -> (r: Result<Move, ChessBoardError>)
        requires
            old(self).wf(),
            from matches Some(f) ==> f.valid(),
            to matches Some(t) ==> t.valid(),
        ensures
            final(self).wf(),
            moved(*old(self), *final(self), piece@, from, to, r),
    {
        if same_square(from, to) {
            return Ok(Move::Normal);
        }
        if self.validation {
            let stone = match Stone::from_str(piece) {
                Ok(s) => s,
                Err(_) => {
                    return Err(ChessBoardError::InvalidMove(MoveError::NoStoneFound));
                },
            };
            match (stone.color(), self.turn) {
                (Color::Light, Turn::White) | (Color::Dark, Turn::Black) => {},
                _ => {
                    return Err(ChessBoardError::InvalidMove(MoveError::InvalidMove));
                },
            }
            match (from, to) {
                (Some(f), Some(t)) => {
                    if !self.is_legal(&f, &t) {
                        return Err(ChessBoardError::InvalidMove(MoveError::InvalidMove));
                    }
                },
                _ => {
                    return Err(ChessBoardError::InvalidMove(MoveError::InvalidMove));
                },
            }
        }
        let ghost pl = relocate(*old(self), piece@, from, to).unwrap();
        let result = match from {
            None => {
                let dst = match to {
                    Some(t) => t,
                    None => {
                        return Err(ChessBoardError::InvalidMove(MoveError::NoStoneFound));
                    },
                };
                let stone = match Stone::from_str(piece) {
                    Ok(s) => s,
                    Err(_) => {
                        return Err(ChessBoardError::InvalidMove(MoveError::NoStoneFound));
                    },
                };
                let i = match find_stone(&self.deleted_stones, stone) {
                    Some(i) => i,
                    None => {
                        return Err(ChessBoardError::InvalidMove(MoveError::NoStoneFound));
                    },
                };
                let stone = self.deleted_stones.remove(i);
                let old_piece = self.take_stone_at(dst.x, dst.y);
                self.stones.set(dst.y * 8 + dst.x, Some(stone));
                match old_piece {
                    Some(o) => self.deleted_stones.push(o),
                    None => {},
                }
                proof {
                    assert(self.stones@ =~= pl.grid);
                }
                Move::Normal
            },
            Some(f) => {
                let stone = match self.stone_at(f.x, f.y) {
                    Some(s) => *s,
                    None => {
                        return Err(ChessBoardError::InvalidMove(MoveError::NoStoneFound));
                    },
                };
                match to {
                    None => {
                        self.take_stone_at(f.x, f.y);
                        self.deleted_stones.push(stone);
                        Move::Normal
                    },
                    Some(t) => {
                        let old_piece = self.stones[t.y * 8 + t.x];
                        self.shift_stone(f.x, f.y, t.x, t.y);
                        match old_piece {
                            Some(o) => self.deleted_stones.push(o),
                            None => {},
                        }
                        if self.validation {
                            self.apply_move_validation_and_effects((stone, f, t))
                        } else {
                            Move::Normal
                        }
                    },
                }
            },
        };
        if self.sync {
            self.turn = self.turn.not();
            self.sync_fen();
            self.sync_treat_map();
            proof {
                assert(self.treat_map@ == threat_map(self.scene()));
            }
        }
        Ok(result)
    }
}

/// A move onto the square it starts from changes nothing and is a normal
/// move.
pub proof fn lemma_same_square_is_no_op(b: ChessBoard, piece: Seq<char>, s: Option<Position>)
    ensures
        move_outcome(b, piece, s, s) == Ok::<Placement, ChessBoardError>(
            Placement {
                grid: b.stones@,
                trash: b.deleted_stones@,
                castle: b.castle_rules,
                passant: b.passant,
                mv: Move::Normal,
            },
        ),
{
}

/// A square-to-square move onto an occupied square adds exactly that
/// square's stone to the end of the trash (an en-passant capture, which
/// removes a second stone, aside).
pub proof fn lemma_capture_accounting(b: ChessBoard, piece: Seq<char>, f: Position, t: Position)
    requires
        f != t,
        cell(b.stones@, t.x as int, t.y as int) is Some,
        !(b.validation && b.passant == Some(t)),
        move_outcome(b, piece, Some(f), Some(t)) is Ok,
    ensures
        move_outcome(b, piece, Some(f), Some(t)).unwrap().trash == b.deleted_stones@.push(
            cell(b.stones@, t.x as int, t.y as int).unwrap(),
        ),
        move_outcome(b, piece, Some(f), Some(t)).unwrap().trash.len() == b.deleted_stones@.len() + 1,
{
}

/// A validated double step of a pawn makes the square it passed over the
/// en-passant target.
pub proof fn lemma_double_step_sets_passant(b: ChessBoard, piece: Seq<char>, f: Position, t: Position)
    requires
        b.validation,
        b.passant != Some(t),
        (cell(b.stones@, f.x as int, f.y as int) == Some(light(Kind::Pawn)) && f.y == 6 && t.y == 4)
            || (cell(b.stones@, f.x as int, f.y as int) == Some(dark(Kind::Pawn)) && f.y == 1 && t.y
            == 3),
        move_outcome(b, piece, Some(f), Some(t)) is Ok,
    ensures
        move_outcome(b, piece, Some(f), Some(t)).unwrap().passant == Some(
            Position { x: t.x, y: if t.y == 4 { 5 } else { 2 } },
        ),
{
}

/// A validated diagonal move of a pawn onto the en-passant target removes the pawn
/// that passed it, one row behind the target, and not the stone on the
/// target.
pub proof fn lemma_en_passant_capture(b: ChessBoard, piece: Seq<char>, f: Position, t: Position, c: Color)
    requires
        b.wf(),
        b.validation,
        f.x != t.x,
        b.passant == Some(t),
        cell(b.stones@, f.x as int, f.y as int) == Some(Stone::of_spec(c, Kind::Pawn)),
        cell(b.stones@, t.x as int, t.y as int) is None,
        t.valid(),
        f.valid(),
        ({
            let cy = if c == Color::Light { t.y + 1 } else { t.y - 1 };
            0 <= cy < 8 && cell(b.stones@, t.x as int, cy) is Some
        }),
        move_outcome(b, piece, Some(f), Some(t)) is Ok,
    ensures
        ({
            let cy = if c == Color::Light { t.y + 1 } else { t.y - 1 };
            let pl = move_outcome(b, piece, Some(f), Some(t)).unwrap();
            &&& pl.mv == Move::Passant
            &&& cell(pl.grid, t.x as int, cy) is None
            &&& cell(pl.grid, t.x as int, t.y as int) == Some(Stone::of_spec(c, Kind::Pawn))
            &&& pl.trash == b.deleted_stones@.push(cell(b.stones@, t.x as int, cy).unwrap())
            &&& pl.passant is None
        }),
{
    let cy = if c == Color::Light { t.y + 1 } else { t.y - 1 };
    assert(idx(t.x as int, cy) != idx(t.x as int, t.y as int));
    assert(idx(f.x as int, f.y as int) != idx(t.x as int, t.y as int));
    assert(idx(f.x as int, f.y as int) != idx(t.x as int, cy));
    let g = b.stones@;
    let st = Stone::of_spec(c, Kind::Pawn);
    let g2 = shift(g, f.x as int, f.y as int, t.x as int, t.y as int);
    assert(relocate(b, piece, Some(f), Some(t)) == Ok::<Placement, ChessBoardError>(
        effects(g2, b.deleted_stones@, b.castle_rules, b.passant, st, f, t),
    ));
    assert(cell(g2, t.x as int, cy) == cell(g, t.x as int, cy));
    assert(st.color == c);
    let pl = effects(g2, b.deleted_stones@, b.castle_rules, b.passant, st, f, t);
    assert(pl.grid == g2.update(idx(t.x as int, cy), None));
}

/// A validated castling move of the king two files along its home row puts
/// the rook of that side on the square the king passed over and takes away
/// both castling rights of that side.
pub proof fn lemma_castling_moves_rook(b: ChessBoard, piece: Seq<char>, c: Color, king_side: bool)
    requires
        b.validation,
        b.wf(),
        ({
            let row: usize = if c == Color::Light { 7 } else { 0 };
            let to = Position { x: if king_side { 6 } else { 2 }, y: row };
            &&& b.passant != Some(to)
            &&& cell(b.stones@, 4, row as int) == Some(Stone::of_spec(c, Kind::King))
            &&& move_outcome(b, piece, Some(Position { x: 4, y: row }), Some(to)) is Ok
        }),
    ensures
        ({
            let row: usize = if c == Color::Light { 7 } else { 0 };
            let to = Position { x: if king_side { 6 } else { 2 }, y: row };
            let pl = move_outcome(b, piece, Some(Position { x: 4, y: row }), Some(to)).unwrap();
            let (rook_from, rook_to) = if king_side { (7int, 5int) } else { (0int, 3int) };
            &&& pl.mv == Move::Castle(if king_side { CastlePosition::KingSide } else { CastlePosition::QueenSide })
            &&& cell(pl.grid, to.x as int, row as int) == Some(Stone::of_spec(c, Kind::King))
            &&& cell(pl.grid, rook_to, row as int) == cell(b.stones@, rook_from, row as int)
            &&& cell(pl.grid, rook_from, row as int) is None
            &&& cell(pl.grid, 4, row as int) is None
            &&& (if c == Color::Light { pl.castle.white } else { pl.castle.black }) == CastleOptions::NoSide
        }),
{
}

/// Castling is refused under validation when a square between the king
/// and the rook is occupied.
pub proof fn lemma_castling_blocked(b: ChessBoard, piece: Seq<char>, c: Color, king_side: bool)
    requires
        b.wf(),
        b.validation,
        ({
            let row = if c == Color::Light { 7int } else { 0int };
            &&& cell(b.stones@, 4, row) == Some(Stone::of_spec(c, Kind::King))
            &&& if king_side {
                cell(b.stones@, 5, row) is Some || cell(b.stones@, 6, row) is Some
            } else {
                cell(b.stones@, 1, row) is Some || cell(b.stones@, 2, row) is Some || cell(
                    b.stones@,
                    3,
                    row,
                ) is Some
            }
        }),
    ensures
        ({
            let row: usize = if c == Color::Light { 7 } else { 0 };
            let to = Position { x: if king_side { 6 } else { 2 }, y: row };
            move_outcome(b, piece, Some(Position { x: 4, y: row }), Some(to)) is Err
        }),
{
    let row: usize = if c == Color::Light { 7 } else { 0 };
    let tx: int = if king_side { 6 } else { 2 };
    let st = Stone::of_spec(c, Kind::King);
    reveal_with_fuel(crate::rules::pattern_hits, 9);
    assert(!crate::rules::base_hits(b.stones@, st, 4, row as int, tx, row as int));
    assert(!crate::rules::castle_hits(b.scene(), c, tx, row as int));
    assert(!legal_hits(b.scene(), 4, row as int, tx, row as int));
}

} // verus!
