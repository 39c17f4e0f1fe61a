//! Pieces ("stones"), their FEN letters and image tags, and the patterns in
//! which they move.
use vstd::prelude::*;
use crate::castle_rules::CastleOptions;
use crate::chess_board::ChessBoard;
use crate::position::Position;
use crate::rules::{
    base_hits, castle_hits, cell, eat_offsets, free_at, king_hits, offsets, on_board, pattern_hits,
    pawn_hits, pseudo_hits, ray_hits, reaches, sliding,
};
use crate::turns::Turn;

verus! {

#[derive(Clone, Copy, PartialEq, Eq, Debug, Structural)]
pub enum Kind {
    King,
    Queen,
    Rook,
    Bishop,
    Knight,
    Pawn,
}

#[derive(Clone, Copy, PartialEq, Eq, Debug, Structural)]
pub enum Color {
    Dark,
    Light,
}

/// A piece: its color and its kind. Its FEN letter and its two-letter image
/// tag follow from those.
#[derive(Clone, Copy, PartialEq, Eq, Debug, Structural)]
pub struct Stone {
    pub color: Color,
    pub kind: Kind,
}

/// The directions of a piece and whether it slides along them.
#[derive(Debug)]
pub struct MovePattern {
    patterns: Vec<(i32, i32)>,
    sliding: bool,
}

/// The lower-case FEN letter of a kind.
pub open spec fn kind_letter(k: Kind) -> char {
    match k {
        Kind::King => 'k',
        Kind::Queen => 'q',
        Kind::Rook => 'r',
        Kind::Bishop => 'b',
        Kind::Knight => 'n',
        Kind::Pawn => 'p',
    }
}

/// The upper-case FEN letter of a kind.
pub open spec fn kind_upper(k: Kind) -> char {
    match k {
        Kind::King => 'K',
        Kind::Queen => 'Q',
        Kind::Rook => 'R',
        Kind::Bishop => 'B',
        Kind::Knight => 'N',
        Kind::Pawn => 'P',
    }
}

/// The kind whose lower-case letter is `c`.
pub open spec fn kind_of_letter(c: char) -> Option<Kind> {
    if c == 'k' {
        Some(Kind::King)
    } else if c == 'q' {
        Some(Kind::Queen)
    } else if c == 'r' {
        Some(Kind::Rook)
    } else if c == 'b' {
        Some(Kind::Bishop)
    } else if c == 'n' {
        Some(Kind::Knight)
    } else if c == 'p' {
        Some(Kind::Pawn)
    } else {
        None
    }
}

/// The kind whose upper-case letter is `c`.
pub open spec fn kind_of_upper(c: char) -> Option<Kind> {
    if c == 'K' {
        Some(Kind::King)
    } else if c == 'Q' {
        Some(Kind::Queen)
    } else if c == 'R' {
        Some(Kind::Rook)
    } else if c == 'B' {
        Some(Kind::Bishop)
    } else if c == 'N' {
        Some(Kind::Knight)
    } else if c == 'P' {
        Some(Kind::Pawn)
    } else {
        None
    }
}

/// The FEN letter of a stone: upper case for light, lower case for dark.
pub open spec fn fen_char(s: Stone) -> char {
    match s.color {
        Color::Light => kind_upper(s.kind),
        Color::Dark => kind_letter(s.kind),
    }
}

/// The stone that a FEN letter denotes.
pub open spec fn stone_of_char(c: char) -> Option<Stone> {
    match kind_of_upper(c) {
        Some(k) => Some(Stone { color: Color::Light, kind: k }),
        None => match kind_of_letter(c) {
            Some(k) => Some(Stone { color: Color::Dark, kind: k }),
            None => None,
        },
    }
}

/// The two-letter image tag of a stone, such as `lp` or `dk`.
pub open spec fn stone_tag(s: Stone) -> Seq<char> {
    seq![
        match s.color {
            Color::Light => 'l',
            Color::Dark => 'd',
        },
        kind_letter(s.kind),
    ]
}

/// The stone that an image tag denotes.
pub open spec fn stone_of_tag(s: Seq<char>) -> Option<Stone> {
    if s.len() == 2 && (s[0] == 'l' || s[0] == 'd') {
        match kind_of_letter(s[1]) {
            Some(k) => Some(
                Stone {
                    color: if s[0] == 'l' {
                        Color::Light
                    } else {
                        Color::Dark
                    },
                    kind: k,
                },
            ),
            None => None,
        }
    } else {
        None
    }
}

pub proof fn lemma_stone_char_round_trip(s: Stone)
    ensures
        stone_of_char(fen_char(s)) == Some(s),
{
}

pub proof fn lemma_stone_tag_round_trip(s: Stone)
    ensures
        stone_of_tag(stone_tag(s)) == Some(s),
{
}

/// The tag of a stone tells it apart from every other stone.
pub proof fn lemma_stone_tag_exact(s: Stone, t: Seq<char>)
    ensures
        (stone_tag(s) == t) <==> (stone_of_tag(t) == Some(s)),
{
    if stone_of_tag(t) == Some(s) {
        assert(t =~= stone_tag(s));
    }
}

/// The other color.
pub open spec fn opposite(c: Color) -> Color {
    match c {
        Color::Light => Color::Dark,
        Color::Dark => Color::Light,
    }
}

fn kind_from_letter(c: char) -> (r: Option<Kind>)
    ensures
        r == kind_of_letter(c),
{
    match c {
        'k' => Some(Kind::King),
        'q' => Some(Kind::Queen),
        'r' => Some(Kind::Rook),
        'b' => Some(Kind::Bishop),
        'n' => Some(Kind::Knight),
        'p' => Some(Kind::Pawn),
        _ => None,
    }
}

fn kind_from_upper(c: char) -> (r: Option<Kind>)
    ensures
        r == kind_of_upper(c),
{
    match c {
        'K' => Some(Kind::King),
        'Q' => Some(Kind::Queen),
        'R' => Some(Kind::Rook),
        'B' => Some(Kind::Bishop),
        'N' => Some(Kind::Knight),
        'P' => Some(Kind::Pawn),
        _ => None,
    }
}

impl Color {
    pub fn to_string(&self) -> (r: String)
        ensures
            r@ == match self {
                Color::Dark => seq!['d', 'a', 'r', 'k'],
                Color::Light => seq!['l', 'i', 'g', 'h', 't'],
            },
    {
        match self {
            Color::Dark => {
                let r = crate::text::string_of("dark");
                proof {
                    reveal_strlit("dark");
                }
                r
            },
            Color::Light => {
                let r = crate::text::string_of("light");
                proof {
                    reveal_strlit("light");
                }
                r
            },
        }
    }
}

impl Stone {
    pub open spec fn spec_color(self) -> Color {
        self.color
    }

    pub open spec fn spec_kind(self) -> Kind {
        self.kind
    }

    pub open spec fn of_spec(color: Color, kind: Kind) -> Stone {
        Stone { color, kind }
    }

    /// The stone of a given color and kind.
    pub fn of(color: Color, kind: Kind) -> (r: Stone)
        ensures
            r == Stone::of_spec(color, kind),
    {
        Stone { color, kind }
    }

    /// The FEN letter.
    pub fn char(&self) -> (r: char)
        ensures
            r == fen_char(*self),
    {
        match self.color {
            Color::Light => match self.kind {
                Kind::King => 'K',
                Kind::Queen => 'Q',
                Kind::Rook => 'R',
                Kind::Bishop => 'B',
                Kind::Knight => 'N',
                Kind::Pawn => 'P',
            },
            Color::Dark => match self.kind {
                Kind::King => 'k',
                Kind::Queen => 'q',
                Kind::Rook => 'r',
                Kind::Bishop => 'b',
                Kind::Knight => 'n',
                Kind::Pawn => 'p',
            },
        }
    }

    pub fn color(&self) -> (r: Color)
        ensures
            r == self.color,
    {
        self.color
    }

    pub fn kind(&self) -> (r: Kind)
        ensures
            r == self.kind,
    {
        self.kind
    }

    /// The image tag.
    pub fn as_str(&self) -> (r: &'static str)
        ensures
            r@ == stone_tag(*self),
    {
        let r = match self.color {
            Color::Light => match self.kind {
                Kind::King => "lk",
                Kind::Queen => "lq",
                Kind::Rook => "lr",
                Kind::Bishop => "lb",
                Kind::Knight => "ln",
                Kind::Pawn => "lp",
            },
            Color::Dark => match self.kind {
                Kind::King => "dk",
                Kind::Queen => "dq",
                Kind::Rook => "dr",
                Kind::Bishop => "db",
                Kind::Knight => "dn",
                Kind::Pawn => "dp",
            },
        };
        proof {
            reveal_strlit("lk");
            reveal_strlit("lq");
            reveal_strlit("lr");
            reveal_strlit("lb");
            reveal_strlit("ln");
            reveal_strlit("lp");
            reveal_strlit("dk");
            reveal_strlit("dq");
            reveal_strlit("dr");
            reveal_strlit("db");
            reveal_strlit("dn");
            reveal_strlit("dp");
            assert(r@ =~= stone_tag(*self));
        }
        r
    }

    /// The image tag, owned.
    pub fn image_class(&self) -> (r: String)
        ensures
            r@ == stone_tag(*self),
    {
        crate::text::string_of(self.as_str())
    }

    /// The stone of a FEN letter.
    pub fn try_from(c: char) -> (r: Result<Stone, ()>)
        ensures
            r matches Ok(s) ==> stone_of_char(c) == Some(s),
            r is Err ==> stone_of_char(c) is None,
    {
        match kind_from_upper(c) {
            Some(k) => Ok(Stone { color: Color::Light, kind: k }),
            None => match kind_from_letter(c) {
                Some(k) => Ok(Stone { color: Color::Dark, kind: k }),
                None => Err(()),
            },
        }
    }

    /// The stone of a two-letter image tag.
    pub fn from_str(s: &str) -> (r: Result<Stone, ()>)
        ensures
            r matches Ok(st) ==> stone_of_tag(s@) == Some(st),
            r is Err ==> stone_of_tag(s@) is None,
    {
        if s.unicode_len() != 2 {
            return Err(());
        }
        let c0 = s.get_char(0);
        let c1 = s.get_char(1);
        if c0 != 'l' && c0 != 'd' {
            return Err(());
        }
        match kind_from_letter(c1) {
            Some(k) => Ok(
                Stone {
                    color: if c0 == 'l' {
                        Color::Light
                    } else {
                        Color::Dark
                    },
                    kind: k,
                },
            ),
            None => Err(()),
        }
    }
}


impl Kind {
    /// The directions of this kind for a stone of `color`.
    pub fn move_pattern(&self, color: Color) -> (r: MovePattern)
        ensures
            r.directions() == offsets(*self, color),
            r.is_sliding() == sliding(*self),
            r.wf(),
    {
        let r = match self {
            Kind::King => MovePattern {
                patterns: vec![(1, 1), (1, 0), (1, -1), (0, 1), (0, -1), (-1, 1), (-1, 0), (-1, -1)],
                sliding: false,
            },
            Kind::Queen => MovePattern {
                patterns: vec![(1, 1), (1, 0), (1, -1), (0, 1), (0, -1), (-1, 1), (-1, 0), (-1, -1)],
                sliding: true,
            },
            Kind::Rook => MovePattern { patterns: vec![(1, 0), (0, 1), (0, -1), (-1, 0)], sliding: true },
            Kind::Bishop => MovePattern {
                patterns: vec![(1, 1), (1, -1), (-1, 1), (-1, -1)],
                sliding: true,
            },
            Kind::Knight => MovePattern {
                patterns: vec![(2, 1), (2, -1), (-2, 1), (-2, -1), (1, 2), (1, -2), (-1, 2), (-1, -2)],
                sliding: false,
            },
            Kind::Pawn => match color {
                Color::Dark => MovePattern { patterns: vec![(0, 1)], sliding: false },
                Color::Light => MovePattern { patterns: vec![(0, -1)], sliding: false },
            },
        };
        proof {
            assert(r.patterns@ =~= offsets(*self, color));
        }
        r
    }

    /// The diagonal capture directions of a pawn of `color`.
    pub fn pawn_eat_pattern(&self, color: Color) -> (r: MovePattern)
        requires
            *self == Kind::Pawn,
        ensures
            r.directions() == eat_offsets(color),
            !r.is_sliding(),
            r.wf(),
    {
        let r = match color {
            Color::Dark => MovePattern { patterns: vec![(-1, 1), (1, 1)], sliding: false },
            Color::Light => MovePattern { patterns: vec![(-1, -1), (1, -1)], sliding: false },
        };
        proof {
            assert(r.patterns@ =~= eat_offsets(color));
        }
        r
    }
}

/// A mask with no square marked.
pub(crate) fn empty_mask() -> (r: Vec<bool>)
    ensures
        r@.len() == 64,
        forall|t: int| 0 <= t < 64 ==> !#[trigger] r@[t],
{
    let mut r: Vec<bool> = Vec::new();
    let mut i: usize = 0;
    while i < 64
        invariant
            i <= 64,
            r@.len() == i,
            forall|t: int| 0 <= t < i ==> !#[trigger] r@[t],
        decreases 64 - i,
    {
        r.push(false);
        i = i + 1;
    }
    r
}

/// The squares marked in a mask, in row order.
pub(crate) fn positions_of(mask: &Vec<bool>) -> (r: Vec<Position>)
    requires
        mask@.len() == 64,
    ensures
        r@.no_duplicates(),
        forall|p: Position| #[trigger]
            r@.contains(p) <==> (p.valid() && mask@[p.y * 8 + p.x]),
{
    let mut r: Vec<Position> = Vec::new();
    let mut i: usize = 0;
    while i < 64
        invariant
            i <= 64,
            mask@.len() == 64,
            r@.no_duplicates(),
            forall|j: int| 0 <= j < r@.len() ==> (#[trigger] r@[j]).valid() && r@[j].y * 8 + r@[j].x < i,
            forall|p: Position| #[trigger]
                r@.contains(p) <==> (p.valid() && p.y * 8 + p.x < i && mask@[p.y * 8 + p.x]),
        decreases 64 - i,
    {
        if mask[i] {
            let p = Position { x: i % 8, y: i / 8 };
            let ghost old_r = r@;
            r.push(p);
            proof {
                assert forall|q: Position| #[trigger]
                    r@.contains(q) <==> (q.valid() && q.y * 8 + q.x < i + 1 && mask@[q.y * 8 + q.x]) by {
                    if r@.contains(q) {
                        let j = choose|j: int| 0 <= j < r@.len() && r@[j] == q;
                        if j < old_r.len() {
                            assert(old_r.contains(q));
                        }
                    }
                    if q.valid() && q.y * 8 + q.x < i + 1 && mask@[q.y * 8 + q.x] {
                        if q.y * 8 + q.x < i {
                            assert(old_r.contains(q));
                            let j = choose|j: int| 0 <= j < old_r.len() && old_r[j] == q;
                            assert(r@[j] == q);
                        } else {
                            assert(q == p);
                            assert(r@[old_r.len() as int] == q);
                        }
                    }
                }
                assert forall|a: int, b: int| 0 <= a < r@.len() && 0 <= b < r@.len() && a != b
                    implies r@[a] != r@[b] by {
                    if a < old_r.len() && b < old_r.len() {
                    } else if a < old_r.len() {
                        assert(old_r[a].y * 8 + old_r[a].x < i);
                    } else if b < old_r.len() {
                        assert(old_r[b].y * 8 + old_r[b].x < i);
                    }
                }
            }
        } else {
            proof {
                assert forall|q: Position| #[trigger]
                    r@.contains(q) <==> (q.valid() && q.y * 8 + q.x < i + 1 && mask@[q.y * 8 + q.x]) by {
                    if q.valid() && q.y * 8 + q.x == i {
                        assert(!mask@[q.y * 8 + q.x]);
                    }
                }
            }
        }
        i = i + 1;
    }
    r
}

/// Marks the squares that a walk from `(x, y)` in direction `(dx, dy)`
/// reaches within `fuel` steps.
fn mark_ray(
    g: &Vec<Option<Stone>>,
    x: i32,
    y: i32,
    dx: i32,
    dy: i32,
    slide: bool,
    mask: &mut Vec<bool>,
    fuel: u32,
)
    requires
        g@.len() == 64,
        old(mask)@.len() == 64,
        on_board(x as int, y as int),
        -2 <= dx <= 2,
        -2 <= dy <= 2,
    ensures
        final(mask)@.len() == 64,
        forall|t: int|
            0 <= t < 64 ==> #[trigger] final(mask)@[t] == (old(mask)@[t] || ray_hits(
                g@,
                x as int,
                y as int,
                dx as int,
                dy as int,
                slide,
                t % 8,
                t / 8,
                fuel as nat,
            )),
    decreases fuel,
{
    if fuel == 0 {
        return;
    }
    let nx = x + dx;
    let ny = y + dy;
    if !(0 <= nx && nx < 8 && 0 <= ny && ny < 8) {
        return;
    }
    let i = (ny * 8 + nx) as usize;
    let ghost before = mask@;
    mask.set(i, true);
    if slide && g[i].is_none() {
        let ghost mid = mask@;
        mark_ray(g, nx, ny, dx, dy, slide, mask, fuel - 1);
        proof {
            assert forall|t: int| 0 <= t < 64 implies #[trigger] mask@[t] == (before[t] || ray_hits(
                g@,
                x as int,
                y as int,
                dx as int,
                dy as int,
                slide,
                t % 8,
                t / 8,
                fuel as nat,
            )) by {
                assert(mid[t] == (before[t] || t == i));
            }
        }
    } else {
        proof {
            assert forall|t: int| 0 <= t < 64 implies #[trigger] mask@[t] == (before[t] || ray_hits(
                g@,
                x as int,
                y as int,
                dx as int,
                dy as int,
                slide,
                t % 8,
                t / 8,
                fuel as nat,
            )) by {
                assert(mask@[t] == (before[t] || t == i));
            }
        }
    }
}

impl MovePattern {
    pub closed spec fn directions(&self) -> Seq<(i32, i32)> {
        self.patterns@
    }

    pub closed spec fn is_sliding(&self) -> bool {
        self.sliding
    }

    /// Every direction moves at most two squares along each axis.
    pub closed spec fn wf(&self) -> bool {
        forall|i: int|
            0 <= i < self.patterns@.len() ==> -2 <= (#[trigger] self.patterns@[i]).0 <= 2 && -2
                <= self.patterns@[i].1 <= 2
    }

    /// Marks every square that the pattern reaches from `(px, py)`.
    fn mark(&self, g: &Vec<Option<Stone>>, px: usize, py: usize, mask: &mut Vec<bool>)
        requires
            self.wf(),
            g@.len() == 64,
            old(mask)@.len() == 64,
            px < 8,
            py < 8,
        ensures
            final(mask)@.len() == 64,
            forall|t: int|
                0 <= t < 64 ==> #[trigger] final(mask)@[t] == (old(mask)@[t] || reaches(
                    g@,
                    px as int,
                    py as int,
                    self.directions(),
                    self.is_sliding(),
                    t % 8,
                    t / 8,
                )),
    {
        let n = self.patterns.len();
        let mut k: usize = 0;
        while k < n
            invariant
                self.wf(),
                n == self.patterns@.len(),
                k <= n,
                g@.len() == 64,
                mask@.len() == 64,
                px < 8,
                py < 8,
                forall|t: int|
                    0 <= t < 64 ==> #[trigger] mask@[t] == (old(mask)@[t] || pattern_hits(
                        g@,
                        px as int,
                        py as int,
                        self.patterns@,
                        self.sliding,
                        k as int,
                        t % 8,
                        t / 8,
                    )),
            decreases n - k,
        {
            let (dx, dy) = self.patterns[k];
            let ghost before = mask@;
            proof {
                assert(-2 <= self.patterns@[k as int].0 <= 2);
            }
            mark_ray(g, px as i32, py as i32, dx, dy, self.sliding, mask, 8);
            proof {
                assert forall|t: int| 0 <= t < 64 implies #[trigger] mask@[t] == (old(mask)@[t]
                    || pattern_hits(
                    g@,
                    px as int,
                    py as int,
                    self.patterns@,
                    self.sliding,
                    k + 1,
                    t % 8,
                    t / 8,
                )) by {
                    assert(before[t] == (old(mask)@[t] || pattern_hits(
                        g@,
                        px as int,
                        py as int,
                        self.patterns@,
                        self.sliding,
                        k as int,
                        t % 8,
                        t / 8,
                    )));
                }
            }
            k = k + 1;
        }
    }

    /// The squares that the pattern reaches from `position`: a stepping
    /// pattern one step along each direction, a sliding one along each
    /// direction up to and including the first occupied square.
    pub fn moves_for(&self, position: &Position, chess_board: &ChessBoard) -> (r: Vec<Position>)
        requires
            self.wf(),
            position.valid(),
            chess_board.wf(),
        ensures
            r@.no_duplicates(),
            forall|p: Position| #[trigger]
                r@.contains(p) <==> (p.valid() && reaches(
                    chess_board.stones@,
                    position.x as int,
                    position.y as int,
                    self.directions(),
                    self.is_sliding(),
                    p.x as int,
                    p.y as int,
                )),
    {
        let mut mask = empty_mask();
        self.mark(&chess_board.stones, position.x, position.y, &mut mask);
        let r = positions_of(&mask);
        proof {
            assert forall|p: Position| #[trigger]
                r@.contains(p) <==> (p.valid() && reaches(
                    chess_board.stones@,
                    position.x as int,
                    position.y as int,
                    self.directions(),
                    self.is_sliding(),
                    p.x as int,
                    p.y as int,
                )) by {
                if p.valid() {
                    let t = p.y * 8 + p.x;
                    assert(t % 8 == p.x && t / 8 == p.y);
                    assert(mask@[t] == reaches(
                        chess_board.stones@,
                        position.x as int,
                        position.y as int,
                        self.directions(),
                        self.is_sliding(),
                        t % 8,
                        t / 8,
                    ));
                }
            }
        }
        r
    }
}


/// The row on which castling happens for `c`, its rights and whether its side
/// is to move.
fn castle_side(board: &ChessBoard, c: Color) -> (r: (usize, CastleOptions, bool))
    ensures
        r.0 == (if c == Color::Light {
            7int
        } else {
            0int
        }),
        r.1 == (if c == Color::Light {
            board.castle_rules.white
        } else {
            board.castle_rules.black
        }),
        r.2 == (board.turn == (if c == Color::Light {
            Turn::White
        } else {
            Turn::Black
        })),
{
    match c {
        Color::Light => (7, board.castle_rules.white, board.turn == Turn::White),
        Color::Dark => (0, board.castle_rules.black, board.turn == Turn::Black),
    }
}

impl Stone {
    /// Whether a pawn (this stone) at `(px, py)` may go to `(x, y)`.
    fn pawn_reaches(&self, px: usize, py: usize, x: usize, y: usize, board: &ChessBoard) -> (r: bool)
        requires
            board.wf(),
            px < 8,
            py < 8,
            x < 8,
            y < 8,
        ensures
            r == pawn_hits(board.scene(), *self, px as int, py as int, x as int, y as int),
    {
        let fy: i32 = match self.color {
            Color::Light => py as i32 - 1,
            Color::Dark => py as i32 + 1,
        };
        if fy < 0 || fy > 7 {
            return false;
        }
        let fy = fy as usize;
        let forward = x == px && y == fy && board.stone_at(px, fy).is_none();
        let eat = y == fy && (x + 1 == px || x == px + 1) && match board.stone_at(x, y) {
            Some(o) => o.color != self.color,
            None => match board.passant {
                Some(p) => p.x == x && p.y == y,
                None => false,
            },
        };
        let double = match self.color {
            Color::Light => py == 6 && x == px && y == 4 && board.stone_at(px, 4).is_none()
                && board.stone_at(px, 5).is_none(),
            Color::Dark => py == 1 && x == px && y == 3 && board.stone_at(px, 3).is_none()
                && board.stone_at(px, 2).is_none(),
        };
        forward || eat || double
    }

    /// Narrows the plain pattern moves in `moves` to the moves that the
    /// special rules give: the pawn's steps and captures, and the king's
    /// safe steps and castling.
    fn calculate_special_rules(&self, position: &Position, chess_board: &ChessBoard, moves: &mut Vec<bool>)
        requires
            chess_board.wf(),
            position.valid(),
            old(moves)@.len() == 64,
            forall|t: int|
                0 <= t < 64 ==> #[trigger] old(moves)@[t] == base_hits(
                    chess_board.stones@,
                    *self,
                    position.x as int,
                    position.y as int,
                    t % 8,
                    t / 8,
                ),
        ensures
            final(moves)@.len() == 64,
            forall|t: int|
                0 <= t < 64 ==> #[trigger] final(moves)@[t] == match self.kind {
                    Kind::Pawn => pawn_hits(
                        chess_board.scene(),
                        *self,
                        position.x as int,
                        position.y as int,
                        t % 8,
                        t / 8,
                    ),
                    Kind::King => king_hits(
                        chess_board.scene(),
                        *self,
                        position.x as int,
                        position.y as int,
                        t % 8,
                        t / 8,
                    ),
                    _ => base_hits(
                        chess_board.stones@,
                        *self,
                        position.x as int,
                        position.y as int,
                        t % 8,
                        t / 8,
                    ),
                },
    {
        let ghost sc = chess_board.scene();
        let ghost m0 = moves@;
        match self.kind {
            Kind::Pawn => {
                let mut t: usize = 0;
                while t < 64
                    invariant
                        chess_board.wf(),
                        position.valid(),
                        self.kind == Kind::Pawn,
                        t <= 64,
                        moves@.len() == 64,
                        forall|j: int|
                            0 <= j < t ==> #[trigger] moves@[j] == pawn_hits(
                                sc,
                                *self,
                                position.x as int,
                                position.y as int,
                                j % 8,
                                j / 8,
                            ),
                        sc == chess_board.scene(),
                    decreases 64 - t,
                {
                    let v = self.pawn_reaches(position.x, position.y, t % 8, t / 8, chess_board);
                    moves.set(t, v);
                    t = t + 1;
                }
            },
            Kind::King => {
                let (row, opts, to_move) = castle_side(chess_board, self.color);
                let blocked = to_move && chess_board.is_in_check();
                let king_side = !blocked && match opts {
                    CastleOptions::KingSide | CastleOptions::BothSides => chess_board.free_at(5, row)
                        && chess_board.free_at(6, row),
                    _ => false,
                };
                let queen_side = !blocked && match opts {
                    CastleOptions::QueenSide | CastleOptions::BothSides => chess_board.free_at(1, row)
                        && chess_board.free_at(2, row) && chess_board.free_at(3, row),
                    _ => false,
                };
                proof {
                    assert forall|tx: int, ty: int| #[trigger]
                        castle_hits(sc, self.color, tx, ty) == ((king_side && ty == row && tx == 6)
                            || (queen_side && ty == row && tx == 2)) by {}
                }
                let mut t: usize = 0;
                while t < 64
                    invariant
                        chess_board.wf(),
                        position.valid(),
                        self.kind == Kind::King,
                        t <= 64,
                        moves@.len() == 64,
                        row < 8,
                        sc == chess_board.scene(),
                        forall|tx: int, ty: int| #[trigger]
                            castle_hits(sc, self.color, tx, ty) == ((king_side && ty == row && tx
                                == 6) || (queen_side && ty == row && tx == 2)),
                        forall|j: int| t <= j < 64 ==> #[trigger] moves@[j] == m0[j],
                        forall|j: int|
                            0 <= j < 64 ==> #[trigger] m0[j] == base_hits(
                                chess_board.stones@,
                                *self,
                                position.x as int,
                                position.y as int,
                                j % 8,
                                j / 8,
                            ),
                        forall|j: int|
                            0 <= j < t ==> #[trigger] moves@[j] == king_hits(
                                sc,
                                *self,
                                position.x as int,
                                position.y as int,
                                j % 8,
                                j / 8,
                            ),
                    decreases 64 - t,
                {
                    let x = t % 8;
                    let y = t / 8;
                    let v = (moves[t] && !chess_board.treat_at(x, y)) || (king_side && y == row
                        && x == 6) || (queen_side && y == row && x == 2);
                    proof {
                        assert(m0[t as int] == moves@[t as int]);
                    }
                    moves.set(t, v);
                    t = t + 1;
                }
            },
            _ => {},
        }
    }

    /// Marks the squares this stone may move to from `position`, before the
    /// safety of its king is considered.
    pub(crate) fn possible_mask(&self, position: &Position, chess_board: &ChessBoard) -> (r: Vec<bool>)
        requires
            chess_board.wf(),
            position.valid(),
        ensures
            r@.len() == 64,
            forall|t: int|
                0 <= t < 64 ==> #[trigger] r@[t] == pseudo_hits(
                    chess_board.scene(),
                    *self,
                    position.x as int,
                    position.y as int,
                    t % 8,
                    t / 8,
                ),
    {
        let move_pattern = self.kind.move_pattern(self.color);
        let mut moves = empty_mask();
        let ghost m0 = moves@;
        move_pattern.mark(&chess_board.stones, position.x, position.y, &mut moves);
        proof {
            assert forall|t: int| 0 <= t < 64 implies #[trigger] moves@[t] == base_hits(
                chess_board.stones@,
                *self,
                position.x as int,
                position.y as int,
                t % 8,
                t / 8,
            ) by {
                assert(!m0[t]);
            }
        }
        self.calculate_special_rules(position, chess_board, &mut moves);
        let ghost m1 = moves@;
        let mut t: usize = 0;
        while t < 64
            invariant
                chess_board.wf(),
                position.valid(),
                t <= 64,
                moves@.len() == 64,
                forall|j: int| t <= j < 64 ==> #[trigger] moves@[j] == m1[j],
                forall|j: int|
                    0 <= j < 64 ==> #[trigger] m1[j] == match self.kind {
                        Kind::Pawn => pawn_hits(
                            chess_board.scene(),
                            *self,
                            position.x as int,
                            position.y as int,
                            j % 8,
                            j / 8,
                        ),
                        Kind::King => king_hits(
                            chess_board.scene(),
                            *self,
                            position.x as int,
                            position.y as int,
                            j % 8,
                            j / 8,
                        ),
                        _ => base_hits(
                            chess_board.stones@,
                            *self,
                            position.x as int,
                            position.y as int,
                            j % 8,
                            j / 8,
                        ),
                    },
                forall|j: int|
                    0 <= j < t ==> #[trigger] moves@[j] == pseudo_hits(
                        chess_board.scene(),
                        *self,
                        position.x as int,
                        position.y as int,
                        j % 8,
                        j / 8,
                    ),
            decreases 64 - t,
        {
            let own = match chess_board.stone_at(t % 8, t / 8) {
                Some(o) => o.color == self.color,
                None => false,
            };
            proof {
                assert(moves@[t as int] == m1[t as int]);
                assert(cell(chess_board.stones@, (t % 8) as int, (t / 8) as int) == chess_board.stones@[t as int]);
            }
            let v = moves[t] && !own;
            moves.set(t, v);
            t = t + 1;
        }
        moves
    }

    /// The squares this stone may move to from `position` before the safety
    /// of its king is considered: the pattern moves, the pawn's and king's
    /// special rules, and never a square held by its own color.
    pub fn possible_moves(&self, position: &Position, chess_board: &ChessBoard) -> (r: Vec<Position>)
        requires
            chess_board.wf(),
            position.valid(),
        ensures
            r@.no_duplicates(),
            forall|p: Position| #[trigger]
                r@.contains(p) <==> (p.valid() && pseudo_hits(
                    chess_board.scene(),
                    *self,
                    position.x as int,
                    position.y as int,
                    p.x as int,
                    p.y as int,
                )),
    {
        let mask = self.possible_mask(position, chess_board);
        let r = positions_of(&mask);
        proof {
            assert forall|p: Position| #[trigger]
                r@.contains(p) <==> (p.valid() && pseudo_hits(
                    chess_board.scene(),
                    *self,
                    position.x as int,
                    position.y as int,
                    p.x as int,
                    p.y as int,
                )) by {
                if p.valid() {
                    let t = p.y * 8 + p.x;
                    assert(t % 8 == p.x && t / 8 == p.y);
                    assert(mask@[t] == pseudo_hits(
                        chess_board.scene(),
                        *self,
                        position.x as int,
                        position.y as int,
                        t % 8,
                        t / 8,
                    ));
                }
            }
        }
        r
    }

    /// The squares this stone threatens from `position`: a pawn its two
    /// diagonal squares, any other stone its possible moves.
    pub fn threats(&self, position: &Position, chess_board: &ChessBoard) -> (r: Vec<Position>)
        requires
            chess_board.wf(),
            position.valid(),
        ensures
            r@.no_duplicates(),
            forall|p: Position| #[trigger]
                r@.contains(p) <==> (p.valid() && if self.kind == Kind::Pawn {
                    reaches(
                        chess_board.stones@,
                        position.x as int,
                        position.y as int,
                        eat_offsets(self.color),
                        false,
                        p.x as int,
                        p.y as int,
                    )
                } else {
                    pseudo_hits(
                        chess_board.scene(),
                        *self,
                        position.x as int,
                        position.y as int,
                        p.x as int,
                        p.y as int,
                    )
                }),
    {
        match self.kind {
            Kind::Pawn => {
                let eat_pattern = self.kind.pawn_eat_pattern(self.color);
                eat_pattern.moves_for(position, chess_board)
            },
            _ => self.possible_moves(position, chess_board),
        }
    }
}

} // verus!
