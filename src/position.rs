//! Board coordinates and their algebraic names.
use vstd::prelude::*;
use crate::text::{push_all, push_char};

verus! {

/// A square of the board: `x` is the file (0 is `a`), `y` the row counted
/// from the top (0 is rank 8).
#[derive(Clone, Copy, Debug, PartialEq, Eq, Hash, Structural)]
pub struct Position {
    pub x: usize,
    pub y: usize,
}

/// The letter of file `x`.
pub open spec fn file_char(x: int) -> char {
    if x == 0 {
        'a'
    } else if x == 1 {
        'b'
    } else if x == 2 {
        'c'
    } else if x == 3 {
        'd'
    } else if x == 4 {
        'e'
    } else if x == 5 {
        'f'
    } else if x == 6 {
        'g'
    } else {
        'h'
    }
}

/// The rank digit of row `y` (row 0 is rank 8).
pub open spec fn rank_char(y: int) -> char {
    if y == 0 {
        '8'
    } else if y == 1 {
        '7'
    } else if y == 2 {
        '6'
    } else if y == 3 {
        '5'
    } else if y == 4 {
        '4'
    } else if y == 5 {
        '3'
    } else if y == 6 {
        '2'
    } else {
        '1'
    }
}

/// The algebraic name of a square, such as `e4`.
pub open spec fn square_name(p: Position) -> Seq<char> {
    seq![file_char(p.x as int), rank_char(p.y as int)]
}

/// The square that an algebraic name denotes, if it denotes one.
pub open spec fn parse_square(s: Seq<char>) -> Option<Position> {
    if s.len() == 2 && 'a' <= s[0] <= 'h' && '1' <= s[1] <= '8' {
        Some(
            Position {
                x: (s[0] as u32 - 'a' as u32) as usize,
                y: ('8' as u32 - s[1] as u32) as usize,
            },
        )
    } else {
        None
    }
}

pub proof fn lemma_parse_square_name(p: Position)
    requires
        p.valid(),
    ensures
        parse_square(square_name(p)) == Some(p),
{
}

fn file_letter(x: usize) -> (c: char)
    requires
        x < 8,
    ensures
        c == file_char(x as int),
{
    match x {
        0 => 'a',
        1 => 'b',
        2 => 'c',
        3 => 'd',
        4 => 'e',
        5 => 'f',
        6 => 'g',
        _ => 'h',
    }
}

fn rank_digit(y: usize) -> (c: char)
    requires
        y < 8,
    ensures
        c == rank_char(y as int),
{
    match y {
        0 => '8',
        1 => '7',
        2 => '6',
        3 => '5',
        4 => '4',
        5 => '3',
        6 => '2',
        _ => '1',
    }
}

impl Position {
    /// Both coordinates lie on the board.
    pub open spec fn valid(self) -> bool {
        self.x < 8 && self.y < 8
    }

    pub fn new(x: usize, y: usize) -> (r: Position)
        ensures
            r.x == x,
            r.y == y,
    {
        Position { x, y }
    }

    /// The algebraic name of the square (`a8` .. `h1`).
    pub fn to_string(&self) -> (r: String)
        requires
            self.valid(),
        ensures
            r@ == square_name(*self),
    {
        let mut s = String::new();
        push_char(&mut s, file_letter(self.x));
        push_char(&mut s, rank_digit(self.y));
        proof {
            assert(s@ =~= square_name(*self));
        }
        s
    }

    /// The class name that marks a square in a rendered board.
    pub fn css_class(&self) -> (r: String)
        requires
            self.valid(),
        ensures
            r@ == seq!['s', 'q', 'u', 'a', 'r', 'e', '-'] + square_name(*self),
    {
        let mut s = String::new();
        push_all(&mut s, "square-");
        let name = self.to_string();
        push_all(&mut s, name.as_str());
        proof {
            reveal_strlit("square-");
            assert(s@ =~= seq!['s', 'q', 'u', 'a', 'r', 'e', '-'] + square_name(*self));
        }
        s
    }

    pub fn x(&self) -> (r: usize)
        ensures
            r == self.x,
    {
        self.x
    }

    pub fn y(&self) -> (r: usize)
        ensures
            r == self.y,
    {
        self.y
    }

    /// Reads an algebraic square name; anything else is refused.
    pub fn from_str(s: &str) -> (r: Result<Position, ()>)
        ensures
            r matches Ok(p) ==> parse_square(s@) == Some(p),
            r is Err ==> parse_square(s@) is None,
    {
        if s.unicode_len() != 2 {
            return Err(());
        }
        let f = s.get_char(0);
        let k = s.get_char(1);
        if 'a' <= f && f <= 'h' && '1' <= k && k <= '8' {
            Ok(Position { x: (f as u32 - 'a' as u32) as usize, y: ('8' as u32 - k as u32) as usize })
        } else {
            Err(())
        }
    }
}

} // verus!
