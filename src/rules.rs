//! The rules of movement as mathematical functions of a position: what a
//! stone reaches, which squares the side not to move attacks, when the side
//! to move is in check, and which moves leave its king safe.
use vstd::prelude::*;
use crate::castle_rules::CastleRules;
use crate::position::Position;
use crate::stone::{Color, Kind, Stone, opposite};
use crate::turns::Turn;

verus! {

/// What the move rules read of a board. `grid` and `threats` hold the 64
/// squares row by row, row 0 being rank 8.
pub struct Scene {
    pub grid: Seq<Option<Stone>>,
    pub threats: Seq<bool>,
    pub turn: Turn,
    pub castle: CastleRules,
    pub passant: Option<Position>,
}

pub open spec fn on_board(x: int, y: int) -> bool {
    0 <= x < 8 && 0 <= y < 8
}

/// The index of square `(x, y)` in a row-by-row grid.
pub open spec fn idx(x: int, y: int) -> int {
    y * 8 + x
}

pub open spec fn cell(g: Seq<Option<Stone>>, x: int, y: int) -> Option<Stone> {
    g[idx(x, y)]
}

pub open spec fn empty_at(g: Seq<Option<Stone>>, x: int, y: int) -> bool {
    cell(g, x, y) is None
}

/// The color of the side to move.
pub open spec fn turn_color(t: Turn) -> Color {
    match t {
        Turn::White => Color::Light,
        Turn::Black => Color::Dark,
    }
}

/// The directions in which a kind moves. A pawn moves one row forward: up
/// the board for light, down for dark.
pub open spec fn offsets(k: Kind, c: Color) -> Seq<(i32, i32)> {
    match k {
        Kind::King => seq![(1i32, 1i32), (1i32, 0i32), (1i32, -1i32), (0i32, 1i32), (0i32, -1i32), (-1i32, 1i32), (-1i32, 0i32), (-1i32, -1i32)],
        Kind::Queen => seq![(1i32, 1i32), (1i32, 0i32), (1i32, -1i32), (0i32, 1i32), (0i32, -1i32), (-1i32, 1i32), (-1i32, 0i32), (-1i32, -1i32)],
        Kind::Rook => seq![(1i32, 0i32), (0i32, 1i32), (0i32, -1i32), (-1i32, 0i32)],
        Kind::Bishop => seq![(1i32, 1i32), (1i32, -1i32), (-1i32, 1i32), (-1i32, -1i32)],
        Kind::Knight => seq![(2i32, 1i32), (2i32, -1i32), (-2i32, 1i32), (-2i32, -1i32), (1i32, 2i32), (1i32, -2i32), (-1i32, 2i32), (-1i32, -2i32)],
        Kind::Pawn => match c {
            Color::Dark => seq![(0i32, 1i32)],
            Color::Light => seq![(0i32, -1i32)],
        },
    }
}

/// Rooks, bishops and queens slide; the others step once.
pub open spec fn sliding(k: Kind) -> bool {
    k == Kind::Queen || k == Kind::Rook || k == Kind::Bishop
}

/// The diagonal capture directions of a pawn.
pub open spec fn eat_offsets(c: Color) -> Seq<(i32, i32)> {
    match c {
        Color::Dark => seq![(-1i32, 1i32), (1i32, 1i32)],
        Color::Light => seq![(-1i32, -1i32), (1i32, -1i32)],
    }
}

/// Whether walking from `(x, y)` in direction `(dx, dy)` reaches
/// `(tx, ty)` within `fuel` steps. A step that leaves the board ends the
/// walk; a sliding walk goes on past empty squares only.
pub open spec fn ray_hits(
    g: Seq<Option<Stone>>,
    x: int,
    y: int,
    dx: int,
    dy: int,
    slide: bool,
    tx: int,
    ty: int,
    fuel: nat,
) -> bool
    decreases fuel,
{
    if fuel == 0 || !on_board(x + dx, y + dy) {
        false
    } else if x + dx == tx && y + dy == ty {
        true
    } else {
        slide && empty_at(g, x + dx, y + dy) && ray_hits(
            g,
            x + dx,
            y + dy,
            dx,
            dy,
            slide,
            tx,
            ty,
            (fuel - 1) as nat,
        )
    }
}

/// Whether one of the first `n` directions of `pats` reaches `(tx, ty)`.
pub open spec fn pattern_hits(
    g: Seq<Option<Stone>>,
    px: int,
    py: int,
    pats: Seq<(i32, i32)>,
    slide: bool,
    n: int,
    tx: int,
    ty: int,
) -> bool
    decreases n,
{
    if n <= 0 {
        false
    } else {
        pattern_hits(g, px, py, pats, slide, n - 1, tx, ty) || ray_hits(
            g,
            px,
            py,
            pats[n - 1].0 as int,
            pats[n - 1].1 as int,
            slide,
            tx,
            ty,
            8,
        )
    }
}

/// Whether a pattern reaches `(tx, ty)` from `(px, py)`.
pub open spec fn reaches(
    g: Seq<Option<Stone>>,
    px: int,
    py: int,
    pats: Seq<(i32, i32)>,
    slide: bool,
    tx: int,
    ty: int,
) -> bool {
    pattern_hits(g, px, py, pats, slide, pats.len() as int, tx, ty)
}

/// The plain pattern moves of stone `s` standing at `(px, py)`.
pub open spec fn base_hits(g: Seq<Option<Stone>>, s: Stone, px: int, py: int, tx: int, ty: int) -> bool {
    reaches(g, px, py, offsets(s.spec_kind(), s.spec_color()), sliding(s.spec_kind()), tx, ty)
}

/// The row one step forward for a pawn of color `c`.
pub open spec fn forward_row(c: Color, y: int) -> int {
    match c {
        Color::Light => y - 1,
        Color::Dark => y + 1,
    }
}

/// Pawn moves: one step forward onto an empty square; a diagonal step onto
/// an opposing stone or onto the empty en-passant target; two steps from the
/// starting row across two empty squares. A pawn that cannot step forward
/// off the board has no move at all.
pub open spec fn pawn_hits(sc: Scene, s: Stone, px: int, py: int, tx: int, ty: int) -> bool {
    let g = sc.grid;
    let c = s.spec_color();
    let fy = forward_row(c, py);
    on_board(px, fy) && (
    (tx == px && ty == fy && empty_at(g, px, fy)) || (ty == fy && (tx == px - 1 || tx == px + 1)
        && on_board(tx, ty) && match cell(g, tx, ty) {
        Some(o) => o.spec_color() != c,
        None => sc.passant == Some(Position { x: tx as usize, y: ty as usize }),
    }) || (c == Color::Light && py == 6 && tx == px && ty == 4 && empty_at(g, px, 4) && empty_at(
        g,
        px,
        5,
    )) || (c == Color::Dark && py == 1 && tx == px && ty == 3 && empty_at(g, px, 3) && empty_at(
        g,
        px,
        2,
    )))
}

pub open spec fn threat_at(sc: Scene, x: int, y: int) -> bool {
    sc.threats[idx(x, y)]
}

/// Empty and not attacked.
pub open spec fn free_at(sc: Scene, x: int, y: int) -> bool {
    empty_at(sc.grid, x, y) && !threat_at(sc, x, y)
}

/// The index of the first king of color `c` among the first `n` squares.
pub open spec fn first_king(g: Seq<Option<Stone>>, c: Color, n: int) -> Option<int>
    decreases n,
{
    if n <= 0 {
        None
    } else {
        match first_king(g, c, n - 1) {
            Some(i) => Some(i),
            None => if g[n - 1] == Some(Stone::of_spec(c, Kind::King)) {
                Some(n - 1)
            } else {
                None
            },
        }
    }
}

/// The side to move is in check: the square of its first king (in row
/// order) is attacked.
pub open spec fn in_check(sc: Scene) -> bool {
    match first_king(sc.grid, turn_color(sc.turn), 64) {
        Some(i) => sc.threats[i],
        None => false,
    }
}

/// Castling destinations of a king of color `c`: the rights of its side
/// allow it, its side is not both to move and in check, and the squares
/// between are free.
pub open spec fn castle_hits(sc: Scene, c: Color, tx: int, ty: int) -> bool {
    let row = if c == Color::Light {
        7int
    } else {
        0int
    };
    let opts = if c == Color::Light {
        sc.castle.white
    } else {
        sc.castle.black
    };
    let blocked = sc.turn == (if c == Color::Light {
        Turn::White
    } else {
        Turn::Black
    }) && in_check(sc);
    !blocked && ty == row && ((opts.king_side() && tx == 6 && free_at(sc, 5, row) && free_at(
        sc,
        6,
        row,
    )) || (opts.queen_side() && tx == 2 && free_at(sc, 1, row) && free_at(sc, 2, row) && free_at(
        sc,
        3,
        row,
    )))
}

/// King moves: one step onto a square that is not attacked, or castling.
pub open spec fn king_hits(sc: Scene, s: Stone, px: int, py: int, tx: int, ty: int) -> bool {
    (base_hits(sc.grid, s, px, py, tx, ty) && !threat_at(sc, tx, ty)) || castle_hits(
        sc,
        s.spec_color(),
        tx,
        ty,
    )
}

/// The squares that stone `s` at `(px, py)` may move to before the safety
/// of its king is considered: never a square held by its own color.
pub open spec fn pseudo_hits(sc: Scene, s: Stone, px: int, py: int, tx: int, ty: int) -> bool {
    on_board(tx, ty) && !(cell(sc.grid, tx, ty) matches Some(o) && o.spec_color() == s.spec_color())
        && match s.spec_kind() {
        Kind::Pawn => pawn_hits(sc, s, px, py, tx, ty),
        Kind::King => king_hits(sc, s, px, py, tx, ty),
        _ => base_hits(sc.grid, s, px, py, tx, ty),
    }
}

/// Whether some stone of color `c` among the first `n` squares reaches
/// square `(tx, ty)` of a board with no threats marked.
pub open spec fn attacked_by(sc: Scene, c: Color, n: int, tx: int, ty: int) -> bool
    decreases n,
{
    if n <= 0 {
        false
    } else {
        attacked_by(sc, c, n - 1, tx, ty) || match sc.grid[n - 1] {
            Some(s) => s.spec_color() == c && pseudo_hits(
                sc,
                s,
                (n - 1) % 8,
                (n - 1) / 8,
                tx,
                ty,
            ),
            None => false,
        }
    }
}

pub open spec fn no_threats() -> Seq<bool> {
    Seq::new(64, |i: int| false)
}

/// The scene with no square marked as attacked.
pub open spec fn unmarked(sc: Scene) -> Scene {
    Scene { threats: no_threats(), ..sc }
}

/// The threat map of a scene: the squares that the stones of the side not to
/// move reach, judged on the board with no threats marked.
pub open spec fn threat_map(sc: Scene) -> Seq<bool> {
    Seq::new(
        64,
        |t: int| attacked_by(unmarked(sc), opposite(turn_color(sc.turn)), 64, t % 8, t / 8),
    )
}

/// The scene with its threat map recomputed.
pub open spec fn with_threats(sc: Scene) -> Scene {
    Scene { threats: threat_map(sc), ..sc }
}

/// The scene after lifting the stone at `(px, py)` onto `(tx, ty)` with no
/// other effect.
pub open spec fn after_plain(sc: Scene, px: int, py: int, tx: int, ty: int) -> Scene {
    Scene {
        grid: sc.grid.update(idx(px, py), None).update(idx(tx, ty), cell(sc.grid, px, py)),
        ..sc
    }
}

/// The side that plays stones of color `c`.
pub open spec fn side_of(c: Color) -> Turn {
    match c {
        Color::Light => Turn::White,
        Color::Dark => Turn::Black,
    }
}

/// Some king of color `c` among the first `n` squares stands on an
/// attacked square.
pub open spec fn king_attacked(sc: Scene, c: Color, n: int) -> bool
    decreases n,
{
    if n <= 0 {
        false
    } else {
        king_attacked(sc, c, n - 1) || (sc.grid[n - 1] == Some(Stone::of_spec(c, Kind::King))
            && sc.threats[n - 1])
    }
}

/// The scene after the stone at `(px, py)`, of color `c`, is lifted onto
/// `(tx, ty)`, seen from its side: the threats that count are those of the
/// other color.
pub open spec fn mover_view(sc: Scene, c: Color, px: int, py: int, tx: int, ty: int) -> Scene {
    with_threats(Scene { turn: side_of(c), ..after_plain(sc, px, py, tx, ty) })
}

/// The legal destinations of the stone at `(px, py)`: its pattern moves
/// after which no king of its own color is attacked by the other color.
pub open spec fn legal_hits(sc: Scene, px: int, py: int, tx: int, ty: int) -> bool {
    match cell(sc.grid, px, py) {
        Some(s) => pseudo_hits(sc, s, px, py, tx, ty) && !king_attacked(
            mover_view(sc, s.color, px, py, tx, ty),
            s.color,
            64,
        ),
        None => false,
    }
}

proof fn lemma_no_king_attacked(sc: Scene, c: Color, n: int)
    requires
        !king_attacked(sc, c, n),
    ensures
        forall|i: int| 0 <= i < n && sc.grid[i] == Some(Stone::of_spec(c, Kind::King)) ==> !sc.threats[i],
    decreases n,
{
    if n > 0 {
        lemma_no_king_attacked(sc, c, n - 1);
    }
}

/// A legal destination of a stone leaves every king of the stone's color
/// outside the threat map that the other color has once the stone stands
/// there: the squares that the stones of the other color reach.
pub proof fn lemma_legal_move_keeps_king_safe(sc: Scene, px: int, py: int, tx: int, ty: int, c: Color)
    requires
        cell(sc.grid, px, py) matches Some(s) && s.color == c,
        legal_hits(sc, px, py, tx, ty),
    ensures
        ({
            let v = mover_view(sc, c, px, py, tx, ty);
            &&& v.grid == after_plain(sc, px, py, tx, ty).grid
            &&& v.threats == threat_map(Scene { turn: side_of(c), ..after_plain(sc, px, py, tx, ty) })
            &&& opposite(turn_color(side_of(c))) == opposite(c)
            &&& forall|i: int|
                0 <= i < 64 && v.grid[i] == Some(Stone::of_spec(c, Kind::King)) ==> !#[trigger] v.threats[i]
        }),
{
    lemma_no_king_attacked(mover_view(sc, c, px, py, tx, ty), c, 64);
}

} // verus!
