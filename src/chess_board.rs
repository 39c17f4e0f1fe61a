//! The board: a FEN-backed 8x8 grid with the side to move, castling rights,
//! the en-passant target, the captured stones and the threat map.
use vstd::prelude::*;
use crate::castle_rules::{
    CastleOptions, CastleRules, castle_field, castle_of_field, fen_to_castle_rules, options_field,
};
use crate::enums::{ChessBoardError, FenError};
use crate::passants::{fen_to_passant, passant_field, passant_of_field};
use crate::position::{Position, parse_square, square_name};
use crate::rules::{
    Scene, after_plain, attacked_by, cell, first_king, free_at, in_check, king_attacked, legal_hits,
    no_threats, side_of,
    pseudo_hits, threat_at, threat_map, turn_color, unmarked, with_threats,
};
use crate::stone::{Color, Kind, Stone, empty_mask, fen_char, opposite, positions_of, stone_of_char};
use crate::stones::{fen_to_stones, placement_field, placement_of, write_placement};
use crate::text::{join_with, parse_i32, parse_i32_spec, push_all, push_char, split_on, split_text, string_of};
use crate::turns::{Turn, fen_to_turn, turn_field, turn_of_field};

verus! {

#[derive(Debug)]
pub struct ChessBoard {
    pub fen: String,
    /// The 64 squares row by row, row 0 being rank 8.
    pub stones: Vec<Option<Stone>>,
    /// The squares that the side not to move attacks, in the same order.
    pub treat_map: Vec<bool>,
    pub turn: Turn,
    pub castle_rules: CastleRules,
    pub passant: Option<Position>,
    pub half_move_clock: i32,
    pub full_move_clock: i32,
    /// The halfmove and fullmove fields as the FEN string wrote them; they
    /// are carried into every rewritten FEN unchanged.
    pub half_move_text: String,
    pub full_move_text: String,
    pub deleted_stones: Vec<Stone>,
    pub is_white_view: bool,
    pub validation: bool,
    pub sync: bool,
}

/// Sets up a board from a FEN string and a string of captured stones.
pub struct ChessBoardBuilder {
    pub fen: Option<String>,
    pub deleted_stones: Option<String>,
    pub is_white_view: Option<bool>,
    pub validation: Option<bool>,
    pub sync: Option<bool>,
}

/// What a FEN string and a captured-stones string describe.
pub struct BoardParts {
    pub grid: Seq<Option<Stone>>,
    pub turn: Turn,
    pub castle: CastleRules,
    pub passant: Option<Position>,
    pub half: int,
    pub full: int,
    pub half_text: Seq<char>,
    pub full_text: Seq<char>,
    pub trash: Seq<Stone>,
}

/// The stones that a captured-stones string lists, one FEN letter each.
pub open spec fn trash_of(s: Seq<char>) -> Option<Seq<Stone>> {
    if forall|i: int| 0 <= i < s.len() ==> (#[trigger] stone_of_char(s[i])) is Some {
        Some(Seq::new(s.len(), |i: int| stone_of_char(s[i]).unwrap()))
    } else {
        None
    }
}

/// The captured-stones string of a list of stones.
pub open spec fn trash_text(t: Seq<Stone>) -> Seq<char> {
    Seq::new(t.len(), |i: int| fen_char(t[i]))
}

/// Reads the six FEN fields and the captured stones, reporting the first
/// field that is wrong.
pub open spec fn parse_fen(fen: Seq<char>, trash: Seq<char>) -> Result<BoardParts, ChessBoardError> {
    let f = split_on(fen, ' ');
    if f.len() != 6 {
        Err(ChessBoardError::InvalidFen(FenError::InvalidFormat))
    } else if trash_of(trash) is None {
        Err(ChessBoardError::InvalidDeletedStones)
    } else if placement_of(f[0]) is None {
        Err(ChessBoardError::InvalidFen(FenError::InvalidStones))
    } else if turn_of_field(f[1]) is None {
        Err(ChessBoardError::InvalidFen(FenError::InvalidTurn))
    } else if castle_of_field(f[2]) is None {
        Err(ChessBoardError::InvalidFen(FenError::InvalidCastleRules))
    } else if passant_of_field(f[3]) is None {
        Err(ChessBoardError::InvalidFen(FenError::InvalidPassant))
    } else if parse_i32_spec(f[4]) is None {
        Err(ChessBoardError::InvalidFen(FenError::InvalidHalfMoveClock))
    } else if parse_i32_spec(f[5]) is None {
        Err(ChessBoardError::InvalidFen(FenError::InvalidFullMoveClock))
    } else {
        Ok(
            BoardParts {
                grid: placement_of(f[0]).unwrap(),
                turn: turn_of_field(f[1]).unwrap(),
                castle: castle_of_field(f[2]).unwrap(),
                passant: passant_of_field(f[3]).unwrap(),
                half: parse_i32_spec(f[4]).unwrap(),
                full: parse_i32_spec(f[5]).unwrap(),
                half_text: f[4],
                full_text: f[5],
                trash: trash_of(trash).unwrap(),
            },
        )
    }
}

/// A stone of kind `k` stands at `(x, y)`.
pub open spec fn kind_at(g: Seq<Option<Stone>>, x: int, y: int, k: Kind) -> bool {
    cell(g, x, y) matches Some(s) && s.kind == k
}

/// The king and the rooks that the rights of one side need stand on their
/// home squares of row `row`.
pub open spec fn side_consistent(g: Seq<Option<Stone>>, o: CastleOptions, row: int) -> bool {
    match o {
        CastleOptions::KingSide => kind_at(g, 4, row, Kind::King) && kind_at(g, 7, row, Kind::Rook),
        CastleOptions::QueenSide => kind_at(g, 4, row, Kind::King) && kind_at(g, 0, row, Kind::Rook),
        CastleOptions::BothSides => kind_at(g, 4, row, Kind::King) && kind_at(g, 7, row, Kind::Rook)
            && kind_at(g, 0, row, Kind::Rook),
        CastleOptions::NoSide => true,
    }
}

/// The castling rights of both sides agree with the grid.
pub open spec fn castle_consistent(g: Seq<Option<Stone>>, c: CastleRules) -> bool {
    side_consistent(g, c.white, 7) && side_consistent(g, c.black, 0)
}

/// The FEN string of a position with the given clock fields.
pub open spec fn fen_text(
    g: Seq<Option<Stone>>,
    turn: Turn,
    castle: CastleRules,
    passant: Option<Position>,
    half: Seq<char>,
    full: Seq<char>,
) -> Seq<char> {
    join_with(
        seq![placement_field(g), turn_field(turn), castle_field(castle), passant_field(passant), half, full],
        ' ',
    )
}

/// The scene of freshly read parts, before any threat is marked.
pub open spec fn parts_scene(p: BoardParts) -> Scene {
    Scene { grid: p.grid, threats: no_threats(), turn: p.turn, castle: p.castle, passant: p.passant }
}

/// `b` is the board that `p` describes, with the given settings.
pub open spec fn built_from(
    b: ChessBoard,
    p: BoardParts,
    fen: Seq<char>,
    white_view: bool,
    validation: bool,
    sync: bool,
) -> bool {
    &&& b.wf()
    &&& b.fen@ == fen
    &&& b.stones@ == p.grid
    &&& b.turn == p.turn
    &&& b.castle_rules == p.castle
    &&& b.passant == p.passant
    &&& b.half_move_clock == p.half
    &&& b.full_move_clock == p.full
    &&& b.half_move_text@ == p.half_text
    &&& b.full_move_text@ == p.full_text
    &&& b.deleted_stones@ == p.trash
    &&& b.is_white_view == white_view
    &&& b.validation == validation
    &&& b.sync == sync
    &&& b.treat_map@ == if sync {
        threat_map(parts_scene(p))
    } else {
        no_threats()
    }
    &&& b.clocks_linked()
}

/// The stones among the first `n` squares with their squares, in row order.
pub open spec fn occupied(g: Seq<Option<Stone>>, n: int) -> Seq<(Position, Stone)>
    decreases n,
{
    if n <= 0 {
        Seq::empty()
    } else {
        match g[n - 1] {
            Some(s) => occupied(g, n - 1).push(
                (Position { x: ((n - 1) % 8) as usize, y: ((n - 1) / 8) as usize }, s),
            ),
            None => occupied(g, n - 1),
        }
    }
}

/// The stones that the valid letters of `s` denote, in order; other
/// characters are passed over.
pub open spec fn stones_in(s: Seq<char>) -> Seq<Stone>
    decreases s.len(),
{
    if s.len() == 0 {
        Seq::empty()
    } else {
        match stone_of_char(s.last()) {
            Some(v) => stones_in(s.drop_last()).push(v),
            None => stones_in(s.drop_last()),
        }
    }
}

/// The stone on `(x, y)` has a legal move.
pub open spec fn can_move(sc: Scene, x: int, y: int) -> bool {
    exists|p: Position| p.valid() && #[trigger] legal_hits(sc, x, y, p.x as int, p.y as int)
}

/// Some stone of the side to move among the first `n` squares has a legal
/// move.
pub open spec fn side_can_move(sc: Scene, n: int) -> bool
    decreases n,
{
    if n <= 0 {
        false
    } else {
        side_can_move(sc, n - 1) || (sc.grid[n - 1] matches Some(s) && s.color == turn_color(sc.turn)
            && can_move(sc, (n - 1) % 8, (n - 1) / 8))
    }
}

/// The side to move is in check and has no legal move.
pub open spec fn checkmate(sc: Scene) -> bool {
    in_check(sc) && !side_can_move(sc, 64)
}

/// Reads a captured-stones string.
fn parse_trash(s: &str) -> (r: Option<Vec<Stone>>)
    ensures
        r matches Some(v) ==> trash_of(s@) == Some(v@),
        r is None ==> trash_of(s@) is None,
{
    let n = s.unicode_len();
    let mut v: Vec<Stone> = Vec::new();
    let mut i: usize = 0;
    while i < n
        invariant
            n == s@.len(),
            i <= n,
            v@.len() == i,
            forall|j: int| 0 <= j < i ==> (#[trigger] stone_of_char(s@[j])) == Some(v@[j]),
        decreases n - i,
    {
        let c = s.get_char(i);
        match Stone::try_from(c) {
            Ok(st) => v.push(st),
            Err(_) => {
                return None;
            },
        }
        i = i + 1;
    }
    proof {
        assert(v@ =~= Seq::new(s@.len(), |j: int| stone_of_char(s@[j]).unwrap()));
    }
    Some(v)
}

impl ChessBoardBuilder {
    /// Every setting is given.
    pub open spec fn complete(&self) -> bool {
        self.fen is Some && self.deleted_stones is Some && self.is_white_view is Some
            && self.validation is Some && self.sync is Some
    }

    /// A builder with no FEN yet, no captured stones, the white view,
    /// validation and sync.
    pub fn new() -> (r: Self)
        ensures
            r.fen is None,
            r.deleted_stones matches Some(d) && d@.len() == 0,
            r.is_white_view == Some(true),
            r.validation == Some(true),
            r.sync == Some(true),
    {
        Self {
            fen: None,
            deleted_stones: Some(String::new()),
            is_white_view: Some(true),
            validation: Some(true),
            sync: Some(true),
        }
    }

    pub fn fen(self, fen: &str) -> (r: Self)
        ensures
            r.fen matches Some(f) && f@ == fen@,
            r.deleted_stones == self.deleted_stones,
            r.is_white_view == self.is_white_view,
            r.validation == self.validation,
            r.sync == self.sync,
    {
        Self { fen: Some(fen.to_owned()), ..self }
    }

    pub fn deleted_stones(self, deleted_stones: &str) -> (r: Self)
        ensures
            r.deleted_stones matches Some(d) && d@ == deleted_stones@,
            r.fen == self.fen,
            r.is_white_view == self.is_white_view,
            r.validation == self.validation,
            r.sync == self.sync,
    {
        Self { deleted_stones: Some(deleted_stones.to_owned()), ..self }
    }

    pub fn is_white_view(self, is_white_view: bool) -> (r: Self)
        ensures
            r.is_white_view == Some(is_white_view),
            r.fen == self.fen,
            r.deleted_stones == self.deleted_stones,
            r.validation == self.validation,
            r.sync == self.sync,
    {
        Self { is_white_view: Some(is_white_view), ..self }
    }

    pub fn validation(self, validation: bool) -> (r: Self)
        ensures
            r.validation == Some(validation),
            r.fen == self.fen,
            r.deleted_stones == self.deleted_stones,
            r.is_white_view == self.is_white_view,
            r.sync == self.sync,
    {
        Self { validation: Some(validation), ..self }
    }

    pub fn sync(self, sync: bool) -> (r: Self)
        ensures
            r.sync == Some(sync),
            r.fen == self.fen,
            r.deleted_stones == self.deleted_stones,
            r.is_white_view == self.is_white_view,
            r.validation == self.validation,
    {
        Self { sync: Some(sync), ..self }
    }

    /// Builds the board: every setting must be given, the FEN must have six
    /// valid fields and the captured stones must be FEN letters. Threats are
    /// marked when `sync` is on; under validation the castling rights must
    /// agree with the grid.
    pub fn build(self) -> (r: Result<ChessBoard, ChessBoardError>)
        ensures
            !self.complete() ==> r == Err::<ChessBoard, ChessBoardError>(ChessBoardError::BuildError),
            self.complete() ==> match parse_fen(self.fen.unwrap()@, self.deleted_stones.unwrap()@) {
                Err(e) => r == Err::<ChessBoard, ChessBoardError>(e),
                Ok(p) => if self.validation.unwrap() && !castle_consistent(p.grid, p.castle) {
                    r == Err::<ChessBoard, ChessBoardError>(ChessBoardError::InvalidFen(FenError::InvalidCastleRules))
                } else {
                    r matches Ok(b) && built_from(
                        b,
                        p,
                        self.fen.unwrap()@,
                        self.is_white_view.unwrap(),
                        self.validation.unwrap(),
                        self.sync.unwrap(),
                    )
                },
            },
    {
        let fen = match self.fen {
            Some(f) => f,
            None => {
                return Err(ChessBoardError::BuildError);
            },
        };
        let deleted_stones_str = match self.deleted_stones {
            Some(d) => d,
            None => {
                return Err(ChessBoardError::BuildError);
            },
        };
        let is_white_view = match self.is_white_view {
            Some(v) => v,
            None => {
                return Err(ChessBoardError::BuildError);
            },
        };
        let validation = match self.validation {
            Some(v) => v,
            None => {
                return Err(ChessBoardError::BuildError);
            },
        };
        let sync = match self.sync {
            Some(v) => v,
            None => {
                return Err(ChessBoardError::BuildError);
            },
        };
        let fen_fields = split_text(fen.as_str(), ' ');
        if fen_fields.len() != 6 {
            return Err(ChessBoardError::InvalidFen(FenError::InvalidFormat));
        }
        let deleted_stones = match parse_trash(deleted_stones_str.as_str()) {
            Some(v) => v,
            None => {
                return Err(ChessBoardError::InvalidDeletedStones);
            },
        };
        let stones = match fen_to_stones(fen_fields[0].as_str()) {
            Ok(g) => g,
            Err(e) => {
                return Err(ChessBoardError::InvalidFen(e));
            },
        };
        let turn = match fen_to_turn(fen_fields[1].as_str()) {
            Ok(t) => t,
            Err(e) => {
                return Err(ChessBoardError::InvalidFen(e));
            },
        };
        let castle_rules = match fen_to_castle_rules(fen_fields[2].as_str()) {
            Ok(c) => c,
            Err(e) => {
                return Err(ChessBoardError::InvalidFen(e));
            },
        };
        let passant = match fen_to_passant(fen_fields[3].as_str()) {
            Ok(p) => p,
            Err(e) => {
                return Err(ChessBoardError::InvalidFen(e));
            },
        };
        let half_move_clock = match parse_i32(fen_fields[4].as_str()) {
            Some(v) => v,
            None => {
                return Err(ChessBoardError::InvalidFen(FenError::InvalidHalfMoveClock));
            },
        };
        let full_move_clock = match parse_i32(fen_fields[5].as_str()) {
            Some(v) => v,
            None => {
                return Err(ChessBoardError::InvalidFen(FenError::InvalidFullMoveClock));
            },
        };
        let half_move_text = fen_fields[4].clone();
        let full_move_text = fen_fields[5].clone();
        let mut chess_board = ChessBoard {
            fen,
            stones,
            treat_map: empty_mask(),
            turn,
            castle_rules,
            passant,
            half_move_clock,
            full_move_clock,
            half_move_text,
            full_move_text,
            deleted_stones,
            is_white_view,
            validation,
            sync,
        };
        proof {
            assert(chess_board.treat_map@ =~= no_threats());
        }
        if chess_board.sync {
            chess_board.sync_treat_map();
        }
        if chess_board.validation && !chess_board.valid_castle_rules() {
            return Err(ChessBoardError::InvalidFen(FenError::InvalidCastleRules));
        }
        Ok(chess_board)
    }
}

impl ChessBoard {
    /// The grid and the threat map cover the board, and the en-passant
    /// target lies on it.
    pub open spec fn wf(&self) -> bool {
        &&& self.stones@.len() == 64
        &&& self.treat_map@.len() == 64
        &&& (self.passant matches Some(p) ==> p.valid())
    }

    /// What the move rules read of this board.
    pub open spec fn scene(&self) -> Scene {
        Scene {
            grid: self.stones@,
            threats: self.treat_map@,
            turn: self.turn,
            castle: self.castle_rules,
            passant: self.passant,
        }
    }

    /// The FEN string has six fields, and its clock fields are the ones the
    /// board carries.
    pub open spec fn clocks_linked(&self) -> bool {
        &&& split_on(self.fen@, ' ').len() == 6
        &&& split_on(self.fen@, ' ')[4] == self.half_move_text@
        &&& split_on(self.fen@, ' ')[5] == self.full_move_text@
    }

    /// This board's FEN string as it stands after a rewrite.
    pub open spec fn text(&self) -> Seq<char> {
        fen_text(
            self.stones@,
            self.turn,
            self.castle_rules,
            self.passant,
            self.half_move_text@,
            self.full_move_text@,
        )
    }

    /// Reads a FEN string with no captured stones, without validation and
    /// with sync.
    pub fn new(fen: &str) -> (r: Result<Self, ChessBoardError>)
        ensures
            match parse_fen(fen@, Seq::<char>::empty()) {
                Err(e) => r == Err::<ChessBoard, ChessBoardError>(e),
                Ok(p) => r matches Ok(b) && built_from(b, p, fen@, true, false, true),
            },
    {
        let b = ChessBoardBuilder::new().fen(fen).validation(false).sync(true);
        proof {
            assert(b.deleted_stones.unwrap()@ =~= Seq::<char>::empty());
        }
        b.build()
    }

    /// Whether the castling rights agree with the grid: for each right
    /// claimed, the king and the rook stand on their home squares.
    pub fn valid_castle_rules(&self) -> (r: bool)
        requires
            self.wf(),
        ensures
            r == castle_consistent(self.stones@, self.castle_rules),
    {
        match self.castle_rules.white() {
            CastleOptions::KingSide => {
                if !self.stone_at_is(4, 7, Kind::King) {
                    return false;
                }
                if !self.stone_at_is(7, 7, Kind::Rook) {
                    return false;
                }
            },
            CastleOptions::QueenSide => {
                if !self.stone_at_is(4, 7, Kind::King) {
                    return false;
                }
                if !self.stone_at_is(0, 7, Kind::Rook) {
                    return false;
                }
            },
            CastleOptions::BothSides => {
                if !self.stone_at_is(4, 7, Kind::King) {
                    return false;
                }
                if !self.stone_at_is(7, 7, Kind::Rook) {
                    return false;
                }
                if !self.stone_at_is(0, 7, Kind::Rook) {
                    return false;
                }
            },
            _ => {},
        }
        match self.castle_rules.black() {
            CastleOptions::KingSide => {
                if !self.stone_at_is(4, 0, Kind::King) {
                    return false;
                }
                if !self.stone_at_is(7, 0, Kind::Rook) {
                    return false;
                }
            },
            CastleOptions::QueenSide => {
                if !self.stone_at_is(4, 0, Kind::King) {
                    return false;
                }
                if !self.stone_at_is(0, 0, Kind::Rook) {
                    return false;
                }
            },
            CastleOptions::BothSides => {
                if !self.stone_at_is(4, 0, Kind::King) {
                    return false;
                }
                if !self.stone_at_is(7, 0, Kind::Rook) {
                    return false;
                }
                if !self.stone_at_is(0, 0, Kind::Rook) {
                    return false;
                }
            },
            _ => {},
        }
        true
    }

    /// A stone of kind `kind` stands at `(x, y)`.
    pub fn stone_at_is(&self, x: usize, y: usize, kind: Kind) -> (r: bool)
        requires
            self.wf(),
            x < 8,
            y < 8,
        ensures
            r == kind_at(self.stones@, x as int, y as int, kind),
    {
        match self.stone_at(x, y) {
            Some(s) => s.kind == kind,
            None => false,
        }
    }

    /// Recomputes the threat map: the squares that the stones of the side
    /// not to move reach.
    pub fn sync_treat_map(&mut self)
        requires
            old(self).wf(),
        ensures
            final(self).wf(),
            final(self).treat_map@ == threat_map(old(self).scene()),
            final(self).stones == old(self).stones,
            final(self).turn == old(self).turn,
            final(self).castle_rules == old(self).castle_rules,
            final(self).passant == old(self).passant,
            final(self).fen == old(self).fen,
            final(self).half_move_clock == old(self).half_move_clock,
            final(self).full_move_clock == old(self).full_move_clock,
            final(self).half_move_text == old(self).half_move_text,
            final(self).full_move_text == old(self).full_move_text,
            final(self).deleted_stones == old(self).deleted_stones,
            final(self).is_white_view == old(self).is_white_view,
            final(self).validation == old(self).validation,
            final(self).sync == old(self).sync,
    {
        self.treat_map = empty_mask();
        proof {
            assert(self.treat_map@ =~= no_threats());
            assert(self.scene() == unmarked(old(self).scene()));
        }
        let ghost sc = self.scene();
        let opp = match self.turn {
            Turn::White => Color::Dark,
            Turn::Black => Color::Light,
        };
        let mut acc = empty_mask();
        let mut i: usize = 0;
        while i < 64
            invariant
                self.wf(),
                sc == self.scene(),
                sc == unmarked(old(self).scene()),
                opp == opposite(turn_color(self.turn)),
                i <= 64,
                acc@.len() == 64,
                forall|t: int|
                    0 <= t < 64 ==> #[trigger] acc@[t] == attacked_by(sc, opp, i as int, t % 8, t / 8),
            decreases 64 - i,
        {
            match self.stones[i] {
                Some(stone) => {
                    if stone.color == opp {
                        let pos = Position { x: i % 8, y: i / 8 };
                        let m = stone.possible_mask(&pos, self);
                        let ghost before = acc@;
                        let mut t: usize = 0;
                        while t < 64
                            invariant
                                t <= 64,
                                acc@.len() == 64,
                                m@.len() == 64,
                                forall|j: int| t <= j < 64 ==> #[trigger] acc@[j] == before[j],
                                forall|j: int| 0 <= j < t ==> #[trigger] acc@[j] == (before[j] || m@[j]),
                            decreases 64 - t,
                        {
                            let v = acc[t] || m[t];
                            acc.set(t, v);
                            t = t + 1;
                        }
                    }
                },
                None => {},
            }
            i = i + 1;
        }
        proof {
            assert(acc@ =~= threat_map(old(self).scene()));
        }
        self.treat_map = acc;
    }

    /// The legal destinations of the stone at `position`: its possible
    /// moves after which the side to move is not in check. An empty square
    /// has none.
    pub fn possible_moves(&self, position: &Position) -> (r: Vec<Position>)
        requires
            self.wf(),
            position.valid(),
        ensures
            r@.no_duplicates(),
            forall|p: Position| #[trigger]
                r@.contains(p) <==> (p.valid() && legal_hits(
                    self.scene(),
                    position.x as int,
                    position.y as int,
                    p.x as int,
                    p.y as int,
                )),
    {
        let ghost sc = self.scene();
        let stone = match self.stone_at(position.x, position.y) {
            Some(s) => *s,
            None => {
                let r: Vec<Position> = Vec::new();
                proof {
                    assert forall|p: Position| #[trigger] r@.contains(p) <==> (p.valid() && legal_hits(
                        sc,
                        position.x as int,
                        position.y as int,
                        p.x as int,
                        p.y as int,
                    )) by {}
                }
                return r;
            },
        };
        let cands = stone.possible_mask(position, self);
        let from = position.y * 8 + position.x;
        let mut ok = empty_mask();
        let mut t: usize = 0;
        while t < 64
            invariant
                self.wf(),
                position.valid(),
                sc == self.scene(),
                from == position.y * 8 + position.x,
                cell(sc.grid, position.x as int, position.y as int) == Some(stone),
                t <= 64,
                cands@.len() == 64,
                ok@.len() == 64,
                forall|j: int|
                    0 <= j < 64 ==> #[trigger] cands@[j] == pseudo_hits(
                        sc,
                        stone,
                        position.x as int,
                        position.y as int,
                        j % 8,
                        j / 8,
                    ),
                forall|j: int|
                    0 <= j < t ==> #[trigger] ok@[j] == legal_hits(
                        sc,
                        position.x as int,
                        position.y as int,
                        j % 8,
                        j / 8,
                    ),
            decreases 64 - t,
        {
            if cands[t] {
                let mut grid = copy_grid(&self.stones);
                grid.set(from, None);
                grid.set(t, Some(stone));
                let mut scratch = ChessBoard {
                    fen: String::new(),
                    stones: grid,
                    treat_map: empty_mask(),
                    turn: match stone.color {
                        Color::Light => Turn::White,
                        Color::Dark => Turn::Black,
                    },
                    castle_rules: self.castle_rules,
                    passant: self.passant,
                    half_move_clock: self.half_move_clock,
                    full_move_clock: self.full_move_clock,
                    half_move_text: String::new(),
                    full_move_text: String::new(),
                    deleted_stones: Vec::new(),
                    is_white_view: self.is_white_view,
                    validation: false,
                    sync: false,
                };
                let ghost after = Scene {
                    turn: side_of(stone.color),
                    ..after_plain(sc, position.x as int, position.y as int, (t % 8) as int, (t / 8) as int)
                };
                proof {
                    assert(scratch.stones@ =~= after.grid);
                    assert(unmarked(scratch.scene()) == unmarked(after));
                }
                scratch.sync_treat_map();
                proof {
                    assert(scratch.scene() == with_threats(after));
                }
                let safe = !scratch.king_attacked(stone.color);
                ok.set(t, safe);
            } else {
                ok.set(t, false);
            }
            t = t + 1;
        }
        let r = positions_of(&ok);
        proof {
            assert forall|p: Position| #[trigger] r@.contains(p) <==> (p.valid() && legal_hits(
                sc,
                position.x as int,
                position.y as int,
                p.x as int,
                p.y as int,
            )) by {
                if p.valid() {
                    let j = p.y * 8 + p.x;
                    assert(j % 8 == p.x && j / 8 == p.y);
                    assert(ok@[j] == legal_hits(
                        sc,
                        position.x as int,
                        position.y as int,
                        j % 8,
                        j / 8,
                    ));
                }
            }
        }
        r
    }

    /// Rewrites the FEN string from the grid, the side to move, the
    /// castling rights and the en-passant target; the clock fields are
    /// carried over as they were written.
    pub fn sync_fen(&mut self)
        requires
            old(self).wf(),
        ensures
            final(self).wf(),
            final(self).fen@ == old(self).text(),
            old(self).clocks_linked() ==> {
                &&& final(self).clocks_linked()
                &&& split_on(final(self).fen@, ' ')[4] == split_on(old(self).fen@, ' ')[4]
                &&& split_on(final(self).fen@, ' ')[5] == split_on(old(self).fen@, ' ')[5]
            },
            final(self).stones == old(self).stones,
            final(self).deleted_stones == old(self).deleted_stones,
            final(self).castle_rules == old(self).castle_rules,
            final(self).passant == old(self).passant,
            final(self).treat_map == old(self).treat_map,
            final(self).turn == old(self).turn,
            final(self).half_move_text == old(self).half_move_text,
            final(self).full_move_text == old(self).full_move_text,
            final(self).half_move_clock == old(self).half_move_clock,
            final(self).full_move_clock == old(self).full_move_clock,
            final(self).is_white_view == old(self).is_white_view,
            final(self).validation == old(self).validation,
            final(self).sync == old(self).sync,
    {
        let mut new_fen = String::new();
        write_placement(&mut new_fen, &self.stones);
        let ghost f0 = new_fen@;
        push_char(&mut new_fen, ' ');
        match self.turn {
            Turn::White => push_char(&mut new_fen, 'w'),
            Turn::Black => push_char(&mut new_fen, 'b'),
        }
        let ghost f1 = new_fen@;
        push_char(&mut new_fen, ' ');
        let castle = self.castle_rules.to_string();
        push_all(&mut new_fen, castle.as_str());
        let ghost f2 = new_fen@;
        push_char(&mut new_fen, ' ');
        match self.passant {
            Some(p) => {
                let name = p.to_string();
                push_all(&mut new_fen, name.as_str());
            },
            None => push_char(&mut new_fen, '-'),
        }
        let ghost f3 = new_fen@;
        push_char(&mut new_fen, ' ');
        push_all(&mut new_fen, self.half_move_text.as_str());
        let ghost f4 = new_fen@;
        push_char(&mut new_fen, ' ');
        push_all(&mut new_fen, self.full_move_text.as_str());
        proof {
            let parts = seq![
                placement_field(self.stones@),
                turn_field(self.turn),
                castle_field(self.castle_rules),
                passant_field(self.passant),
                self.half_move_text@,
                self.full_move_text@,
            ];
            assert(f0 == placement_field(self.stones@));
            assert(f1 =~= f0.push(' ') + turn_field(self.turn));
            assert(f2 =~= f1.push(' ') + castle_field(self.castle_rules));
            assert(f3 =~= f2.push(' ') + passant_field(self.passant));
            assert(f4 =~= f3.push(' ') + self.half_move_text@);
            assert(new_fen@ =~= f4.push(' ') + self.full_move_text@);
            assert(parts.drop_last() =~= seq![
                placement_field(self.stones@),
                turn_field(self.turn),
                castle_field(self.castle_rules),
                passant_field(self.passant),
                self.half_move_text@,
            ]);
            assert(parts.drop_last().drop_last() =~= seq![
                placement_field(self.stones@),
                turn_field(self.turn),
                castle_field(self.castle_rules),
                passant_field(self.passant),
            ]);
            assert(parts.drop_last().drop_last().drop_last() =~= seq![
                placement_field(self.stones@),
                turn_field(self.turn),
                castle_field(self.castle_rules),
            ]);
            assert(parts.drop_last().drop_last().drop_last().drop_last() =~= seq![
                placement_field(self.stones@),
                turn_field(self.turn),
            ]);
            assert(parts.drop_last().drop_last().drop_last().drop_last().drop_last() =~= seq![
                placement_field(self.stones@),
            ]);
            reveal_with_fuel(join_with, 7);
            assert(new_fen@ == join_with(parts, ' '));
            if self.clocks_linked() {
                crate::text::lemma_split_pieces_free(self.fen@, ' ');
                crate::stones::lemma_placement_plain(self.stones@, 8);
                let pf = placement_field(self.stones@);
                let cf = castle_field(self.castle_rules);
                assert forall|i: int| 0 <= i < cf.len() implies cf[i] != ' ' by {
                    let w = options_field(self.castle_rules.white, 'K', 'Q');
                    let b = options_field(self.castle_rules.black, 'k', 'q');
                    if (w + b).len() > 0 {
                        if i < w.len() {
                            assert(cf[i] == w[i]);
                        } else {
                            assert(cf[i] == b[i - w.len()]);
                        }
                    }
                }
                assert forall|k: int, i: int| 0 <= k < parts.len() && 0 <= i < parts[k].len() implies #[trigger] parts[k][i]
                    != ' ' by {
                    if k == 0 {
                        assert(parts[k] == pf);
                    } else if k == 2 {
                        assert(parts[k] == cf);
                    } else if k == 4 {
                        assert(split_on(self.fen@, ' ')[4][i] != ' ');
                    } else if k == 5 {
                        assert(split_on(self.fen@, ' ')[5][i] != ' ');
                    }
                }
                crate::text::lemma_split_join(parts, ' ');
            }
        }
        self.fen = new_fen;
    }

    /// Some king of color `c` stands on a square marked as attacked.
    pub fn king_attacked(&self, c: Color) -> (r: bool)
        requires
            self.wf(),
        ensures
            r == king_attacked(self.scene(), c, 64),
    {
        let king = Stone::of(c, Kind::King);
        let mut i: usize = 0;
        while i < 64
            invariant
                self.wf(),
                i <= 64,
                king == Stone::of_spec(c, Kind::King),
                !king_attacked(self.scene(), c, i as int),
            decreases 64 - i,
        {
            if self.stones[i] == Some(king) && self.treat_map[i] {
                proof {
                    lemma_king_attacked_grows(self.scene(), c, i + 1, 64);
                }
                return true;
            }
            i = i + 1;
        }
        false
    }

    /// The side to move is checkmated.
    pub fn is_checkmate(&self) -> (r: bool)
        requires
            self.wf(),
        ensures
            r == checkmate(self.scene()),
    {
        if !self.is_in_check() {
            return false;
        }
        let ghost sc = self.scene();
        let c = match self.turn {
            Turn::White => Color::Light,
            Turn::Black => Color::Dark,
        };
        let mut i: usize = 0;
        while i < 64
            invariant
                self.wf(),
                sc == self.scene(),
                c == turn_color(self.turn),
                i <= 64,
                !side_can_move(sc, i as int),
            decreases 64 - i,
        {
            match self.stones[i] {
                Some(s) => {
                    if s.color == c {
                        let pos = Position { x: i % 8, y: i / 8 };
                        let moves = self.possible_moves(&pos);
                        if moves.len() > 0 {
                            proof {
                                assert(moves@.contains(moves@[0]));
                                assert(can_move(sc, (i % 8) as int, (i / 8) as int));
                                lemma_side_can_move_grows(sc, i + 1, 64);
                            }
                            return false;
                        } else {
                            proof {
                                assert forall|p: Position| p.valid() implies !#[trigger] legal_hits(
                                    sc,
                                    (i % 8) as int,
                                    (i / 8) as int,
                                    p.x as int,
                                    p.y as int,
                                ) by {
                                    assert(!moves@.contains(p));
                                }
                            }
                        }
                    }
                },
                None => {},
            }
            i = i + 1;
        }
        true
    }

    pub fn toggle_validation(&mut self)
        ensures
            final(self).validation == !old(self).validation,
            final(self).stones == old(self).stones,
            final(self).treat_map == old(self).treat_map,
            final(self).turn == old(self).turn,
            final(self).castle_rules == old(self).castle_rules,
            final(self).passant == old(self).passant,
            final(self).deleted_stones == old(self).deleted_stones,
            final(self).fen == old(self).fen,
            final(self).sync == old(self).sync,
            final(self).is_white_view == old(self).is_white_view,
            final(self).half_move_clock == old(self).half_move_clock,
            final(self).full_move_clock == old(self).full_move_clock,
            final(self).half_move_text == old(self).half_move_text,
            final(self).full_move_text == old(self).full_move_text,
    {
        self.validation = !self.validation;
    }

    pub fn castle_rules(&self) -> (r: &CastleRules)
        ensures
            *r == self.castle_rules,
    {
        &self.castle_rules
    }

    /// The stones on the board with their squares, in row order from a8.
    pub fn stones_and_positions_iter(&self) -> (r: Vec<(Position, Stone)>)
        requires
            self.wf(),
        ensures
            r@ == occupied(self.stones@, 64),
    {
        let mut r: Vec<(Position, Stone)> = Vec::new();
        let mut i: usize = 0;
        while i < 64
            invariant
                self.wf(),
                i <= 64,
                r@ == occupied(self.stones@, i as int),
            decreases 64 - i,
        {
            match self.stones[i] {
                Some(s) => r.push((Position { x: i % 8, y: i / 8 }, s)),
                None => {},
            }
            i = i + 1;
        }
        r
    }

    /// The stones on the board with their squares, in row order from a8.
    pub fn stones_and_positions(&self) -> (r: Vec<(Position, Stone)>)
        requires
            self.wf(),
        ensures
            r@ == occupied(self.stones@, 64),
    {
        self.stones_and_positions_iter()
    }

    /// The stones on the board with their squares, in row order from a8.
    pub fn cloned_stones_and_positions(&self) -> (r: Vec<(Position, Stone)>)
        requires
            self.wf(),
        ensures
            r@ == occupied(self.stones@, 64),
    {
        self.stones_and_positions_iter()
    }

    /// The captured stones, in the order they left the board.
    pub fn cloned_deleted_stones(&self) -> (r: Vec<Stone>)
        ensures
            r@ == self.deleted_stones@,
    {
        let mut r: Vec<Stone> = Vec::new();
        let mut i: usize = 0;
        while i < self.deleted_stones.len()
            invariant
                i <= self.deleted_stones@.len(),
                r@ == self.deleted_stones@.subrange(0, i as int),
            decreases self.deleted_stones@.len() - i,
        {
            r.push(self.deleted_stones[i]);
            proof {
                assert(self.deleted_stones@.subrange(0, i + 1) =~= self.deleted_stones@.subrange(
                    0,
                    i as int,
                ).push(self.deleted_stones@[i as int]));
            }
            i = i + 1;
        }
        proof {
            assert(self.deleted_stones@.subrange(0, self.deleted_stones@.len() as int)
                =~= self.deleted_stones@);
        }
        r
    }

    /// Turns the board around for display.
    pub fn flip(&mut self)
        ensures
            final(self).is_white_view == !old(self).is_white_view,
            final(self).stones == old(self).stones,
            final(self).treat_map == old(self).treat_map,
            final(self).turn == old(self).turn,
            final(self).castle_rules == old(self).castle_rules,
            final(self).passant == old(self).passant,
            final(self).deleted_stones == old(self).deleted_stones,
            final(self).fen == old(self).fen,
            final(self).validation == old(self).validation,
            final(self).sync == old(self).sync,
            final(self).half_move_clock == old(self).half_move_clock,
            final(self).full_move_clock == old(self).full_move_clock,
            final(self).half_move_text == old(self).half_move_text,
            final(self).full_move_text == old(self).full_move_text,
    {
        self.is_white_view = !self.is_white_view;
    }

    /// The captured stones as FEN letters.
    pub fn trash_string(&self) -> (r: String)
        ensures
            r@ == trash_text(self.deleted_stones@),
    {
        let mut r = String::new();
        let mut i: usize = 0;
        while i < self.deleted_stones.len()
            invariant
                i <= self.deleted_stones@.len(),
                r@ == trash_text(self.deleted_stones@.subrange(0, i as int)),
            decreases self.deleted_stones@.len() - i,
        {
            push_char(&mut r, self.deleted_stones[i].char());
            proof {
                assert(trash_text(self.deleted_stones@.subrange(0, i + 1)) =~= trash_text(
                    self.deleted_stones@.subrange(0, i as int),
                ).push(fen_char(self.deleted_stones@[i as int])));
            }
            i = i + 1;
        }
        proof {
            assert(self.deleted_stones@.subrange(0, self.deleted_stones@.len() as int)
                =~= self.deleted_stones@);
        }
        r
    }

    /// Adds the stones that the valid letters of `trash` denote to the
    /// captured stones; other characters are passed over.
    pub fn set_trash_from_str(&mut self, trash: &str)
        ensures
            final(self).deleted_stones@ == old(self).deleted_stones@ + stones_in(trash@),
            final(self).stones == old(self).stones,
            final(self).treat_map == old(self).treat_map,
            final(self).turn == old(self).turn,
            final(self).castle_rules == old(self).castle_rules,
            final(self).passant == old(self).passant,
            final(self).fen == old(self).fen,
            final(self).validation == old(self).validation,
            final(self).sync == old(self).sync,
            final(self).is_white_view == old(self).is_white_view,
            final(self).half_move_clock == old(self).half_move_clock,
            final(self).full_move_clock == old(self).full_move_clock,
            final(self).half_move_text == old(self).half_move_text,
            final(self).full_move_text == old(self).full_move_text,
    {
        let n = trash.unicode_len();
        let mut i: usize = 0;
        while i < n
            invariant
                n == trash@.len(),
                i <= n,
                self.deleted_stones@ == old(self).deleted_stones@ + stones_in(trash@.subrange(0, i as int)),
                self.stones == old(self).stones,
                self.treat_map == old(self).treat_map,
                self.turn == old(self).turn,
                self.castle_rules == old(self).castle_rules,
                self.passant == old(self).passant,
                self.fen == old(self).fen,
                self.validation == old(self).validation,
                self.sync == old(self).sync,
                self.is_white_view == old(self).is_white_view,
                self.half_move_clock == old(self).half_move_clock,
                self.full_move_clock == old(self).full_move_clock,
                self.half_move_text == old(self).half_move_text,
                self.full_move_text == old(self).full_move_text,
            decreases n - i,
        {
            let c = trash.get_char(i);
            proof {
                assert(trash@.subrange(0, i + 1).drop_last() =~= trash@.subrange(0, i as int));
            }
            match Stone::try_from(c) {
                Ok(stone) => self.deleted_stones.push(stone),
                Err(_) => {},
            }
            i = i + 1;
        }
        proof {
            assert(trash@.subrange(0, n as int) =~= trash@);
        }
    }

    /// Marks `(x, y)` as attacked.
    pub fn set_treat(&mut self, x: usize, y: usize)
        requires
            old(self).wf(),
            x < 8,
            y < 8,
        ensures
            final(self).wf(),
            final(self).treat_map@ == old(self).treat_map@.update(y * 8 + x, true),
            final(self).stones == old(self).stones,
            final(self).turn == old(self).turn,
            final(self).castle_rules == old(self).castle_rules,
            final(self).passant == old(self).passant,
            final(self).deleted_stones == old(self).deleted_stones,
            final(self).fen == old(self).fen,
            final(self).validation == old(self).validation,
            final(self).sync == old(self).sync,
            final(self).is_white_view == old(self).is_white_view,
            final(self).half_move_clock == old(self).half_move_clock,
            final(self).full_move_clock == old(self).full_move_clock,
            final(self).half_move_text == old(self).half_move_text,
            final(self).full_move_text == old(self).full_move_text,
    {
        self.treat_map.set(y * 8 + x, true);
    }

    /// The class names of the rendered board.
    pub fn css_class(&self) -> (r: String)
        ensures
            r@ == if self.is_white_view {
                seq!['c', 'h', 'e', 's', 's', 'b', 'o', 'a', 'r', 'd']
            } else {
                seq!['c', 'h', 'e', 's', 's', 'b', 'o', 'a', 'r', 'd', ' ', 'f', 'l', 'i', 'p', 'p', 'e', 'd']
            },
    {
        if self.is_white_view {
            let r = string_of("chessboard");
            proof {
                reveal_strlit("chessboard");
                assert(r@ =~= seq!['c', 'h', 'e', 's', 's', 'b', 'o', 'a', 'r', 'd']);
            }
            r
        } else {
            let r = string_of("chessboard flipped");
            proof {
                reveal_strlit("chessboard flipped");
                assert(r@ =~= seq!['c', 'h', 'e', 's', 's', 'b', 'o', 'a', 'r', 'd', ' ', 'f', 'l', 'i', 'p', 'p', 'e', 'd']);
            }
            r
        }
    }

    pub fn white_view(&self) -> (r: bool)
        ensures
            r == self.is_white_view,
    {
        self.is_white_view
    }

    pub fn take_stone_at(&mut self, x: usize, y: usize) -> (r: Option<Stone>)
        requires
            old(self).wf(),
            x < 8,
            y < 8,
        ensures
            final(self).wf(),
            r == cell(old(self).stones@, x as int, y as int),
            final(self).stones@ == old(self).stones@.update(y * 8 + x, None),
            final(self).deleted_stones == old(self).deleted_stones,
            final(self).castle_rules == old(self).castle_rules,
            final(self).passant == old(self).passant,
            final(self).treat_map == old(self).treat_map,
            final(self).turn == old(self).turn,
            final(self).fen == old(self).fen,
            final(self).half_move_text == old(self).half_move_text,
            final(self).full_move_text == old(self).full_move_text,
            final(self).half_move_clock == old(self).half_move_clock,
            final(self).full_move_clock == old(self).full_move_clock,
            final(self).is_white_view == old(self).is_white_view,
            final(self).validation == old(self).validation,
            final(self).sync == old(self).sync,
    {
        let s = self.stones[y * 8 + x];
        self.stones.set(y * 8 + x, None);
        s
    }

    pub fn stone_at(&self, x: usize, y: usize) -> (r: Option<&Stone>)
        requires
            self.wf(),
            x < 8,
            y < 8,
        ensures
            r matches Some(s) ==> cell(self.stones@, x as int, y as int) == Some(*s),
            r is None ==> cell(self.stones@, x as int, y as int) is None,
    {
        self.stones[y * 8 + x].as_ref()
    }

    pub fn treat_at(&self, x: usize, y: usize) -> (r: bool)
        requires
            self.wf(),
            x < 8,
            y < 8,
        ensures
            r == threat_at(self.scene(), x as int, y as int),
    {
        self.treat_map[y * 8 + x]
    }

    /// Empty and not attacked.
    pub fn free_at(&self, x: usize, y: usize) -> (r: bool)
        requires
            self.wf(),
            x < 8,
            y < 8,
        ensures
            r == free_at(self.scene(), x as int, y as int),
    {
        self.stone_at(x, y).is_none() && !self.treat_at(x, y)
    }

    /// The side to move has a king whose square is attacked (the first such
    /// king in row order, where free editing left several).
    pub fn is_in_check(&self) -> (r: bool)
        requires
            self.wf(),
        ensures
            r == in_check(self.scene()),
    {
        let c = match self.turn {
            Turn::White => Color::Light,
            Turn::Black => Color::Dark,
        };
        let king = Stone::of(c, Kind::King);
        let mut i: usize = 0;
        while i < 64
            invariant
                self.wf(),
                i <= 64,
                c == turn_color(self.turn),
                king == Stone::of_spec(c, Kind::King),
                first_king(self.stones@, c, i as int) is None,
            decreases 64 - i,
        {
            if self.stones[i] == Some(king) {
                proof {
                    assert(first_king(self.stones@, c, i + 1) == Some(i as int));
                    lemma_first_king_stable(self.stones@, c, i + 1, 64);
                }
                return self.treat_map[i];
            }
            i = i + 1;
        }
        false
    }
}

/// Once found among the first `n` squares, the first king stays found.
pub proof fn lemma_first_king_stable(g: Seq<Option<Stone>>, c: Color, n: int, m: int)
    requires
        n <= m,
        first_king(g, c, n) is Some,
    ensures
        first_king(g, c, m) == first_king(g, c, n),
    decreases m - n,
{
    if n < m {
        lemma_first_king_stable(g, c, n, m - 1);
    }
}

proof fn lemma_king_attacked_grows(sc: Scene, c: Color, n: int, m: int)
    requires
        n <= m,
        king_attacked(sc, c, n),
    ensures
        king_attacked(sc, c, m),
    decreases m - n,
{
    if n < m {
        lemma_king_attacked_grows(sc, c, n, m - 1);
    }
}

proof fn lemma_side_can_move_grows(sc: Scene, n: int, m: int)
    requires
        n <= m,
        side_can_move(sc, n),
    ensures
        side_can_move(sc, m),
    decreases m - n,
{
    if n < m {
        lemma_side_can_move_grows(sc, n, m - 1);
    }
}

/// A copy of a grid.
fn copy_grid(g: &Vec<Option<Stone>>) -> (r: Vec<Option<Stone>>)
    ensures
        r@ == g@,
{
    let mut r: Vec<Option<Stone>> = Vec::new();
    let mut i: usize = 0;
    while i < g.len()
        invariant
            i <= g@.len(),
            r@ == g@.subrange(0, i as int),
        decreases g@.len() - i,
    {
        r.push(g[i]);
        proof {
            assert(g@.subrange(0, i + 1) =~= g@.subrange(0, i as int).push(g@[i as int]));
        }
        i = i + 1;
    }
    proof {
        assert(g@.subrange(0, g@.len() as int) =~= g@);
    }
    r
}

/// The square that a square name denotes is written back as that name.
proof fn lemma_square_name_of_parse(s: Seq<char>)
    requires
        parse_square(s) is Some,
    ensures
        square_name(parse_square(s).unwrap()) == s,
{
    assert(square_name(parse_square(s).unwrap()) =~= s);
}

/// Reading a FEN string and writing it again from the board gives the same
/// string, provided its placement and castling fields are written the way
/// the board writes them (runs of empty squares as one digit, rights in the
/// order `KQkq`): the turn and en-passant fields always come back the same,
/// and the clock fields are carried as they were.
pub proof fn lemma_build_then_sync_round_trip(
    b: ChessBoard,
    fen: Seq<char>,
    trash: Seq<char>,
    white_view: bool,
    validation: bool,
    sync: bool,
    grid: Seq<Option<Stone>>,
    castle: CastleRules,
)
    requires
        parse_fen(fen, trash) is Ok,
        built_from(b, parse_fen(fen, trash).unwrap(), fen, white_view, validation, sync),
        grid.len() == 64,
        split_on(fen, ' ')[0] == placement_field(grid),
        split_on(fen, ' ')[2] == castle_field(castle),
    ensures
        b.text() == fen,
{
    let f = split_on(fen, ' ');
    let p = parse_fen(fen, trash).unwrap();
    crate::stones::lemma_placement_round_trip(grid);
    crate::castle_rules::lemma_castle_field_round_trip(castle);
    assert(b.stones@ == grid);
    assert(b.castle_rules == castle);
    assert(turn_field(p.turn) == f[1]);
    if f[3] != seq!['-'] {
        lemma_square_name_of_parse(f[3]);
    }
    assert(passant_field(p.passant) == f[3]);
    let parts = seq![
        placement_field(b.stones@),
        turn_field(b.turn),
        castle_field(b.castle_rules),
        passant_field(b.passant),
        b.half_move_text@,
        b.full_move_text@,
    ];
    assert(parts =~= f);
    crate::text::lemma_join_split(fen, ' ');
}

} // verus!
