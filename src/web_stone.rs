//! The piece as the web front end describes it: its letter, color name,
//! kind name and image tag, all as text.
use vstd::prelude::*;
use crate::stone::{Color, Kind, stone_of_char, stone_tag};
use crate::text::{push_char, string_of};

verus! {

#[derive(Debug)]
pub struct Stone {
    pub c: String,
    pub color: String,
    pub name: String,
    pub image_class: String,
}

/// The name of a kind, such as `Knight`.
pub open spec fn kind_name(k: Kind) -> Seq<char> {
    match k {
        Kind::King => seq!['K', 'i', 'n', 'g'],
        Kind::Queen => seq!['Q', 'u', 'e', 'e', 'n'],
        Kind::Rook => seq!['R', 'o', 'o', 'k'],
        Kind::Bishop => seq!['B', 'i', 's', 'h', 'o', 'p'],
        Kind::Knight => seq!['K', 'n', 'i', 'g', 'h', 't'],
        Kind::Pawn => seq!['P', 'a', 'w', 'n'],
    }
}

/// The side a color plays: light is `White`, dark is `Black`.
pub open spec fn side_name(c: Color) -> Seq<char> {
    match c {
        Color::Light => seq!['W', 'h', 'i', 't', 'e'],
        Color::Dark => seq!['B', 'l', 'a', 'c', 'k'],
    }
}

fn kind_name_exec(k: Kind) -> (r: String)
    ensures
        r@ == kind_name(k),
{
    let s = match k {
        Kind::King => "King",
        Kind::Queen => "Queen",
        Kind::Rook => "Rook",
        Kind::Bishop => "Bishop",
        Kind::Knight => "Knight",
        Kind::Pawn => "Pawn",
    };
    proof {
        reveal_strlit("King");
        reveal_strlit("Queen");
        reveal_strlit("Rook");
        reveal_strlit("Bishop");
        reveal_strlit("Knight");
        reveal_strlit("Pawn");
        assert(s@ =~= kind_name(k));
    }
    string_of(s)
}

impl Stone {
    /// The piece of a FEN letter, if it is one.
    pub fn from_char(c: char) -> (r: Option<Self>)
        ensures
            match stone_of_char(c) {
                Some(st) => r matches Some(w) && w.c@ == seq![c] && w.color@ == side_name(st.color)
                    && w.name@ == kind_name(st.kind) && w.image_class@ == stone_tag(st),
                None => r is None,
            },
    {
        let st = match crate::stone::Stone::try_from(c) {
            Ok(st) => st,
            Err(_) => {
                return None;
            },
        };
        let mut letter = String::new();
        push_char(&mut letter, c);
        let color = match st.color {
            Color::Light => {
                proof {
                    reveal_strlit("White");
                }
                string_of("White")
            },
            Color::Dark => {
                proof {
                    reveal_strlit("Black");
                }
                string_of("Black")
            },
        };
        proof {
            assert(letter@ =~= seq![c]);
            assert(color@ =~= side_name(st.color));
        }
        Some(Stone { c: letter, color, name: kind_name_exec(st.kind), image_class: st.image_class() })
    }
}

} // verus!
