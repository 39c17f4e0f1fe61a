//! Castling rights of both sides.
use vstd::prelude::*;
use crate::enums::FenError;
use crate::text::push_char;

verus! {

#[derive(Clone, Copy, Debug, PartialEq, Eq, Structural)]
pub enum CastleOptions {
    KingSide,
    QueenSide,
    BothSides,
    NoSide,
}

#[derive(Clone, Copy, Debug, PartialEq, Eq, Structural)]
pub struct CastleRules {
    pub white: CastleOptions,
    pub black: CastleOptions,
}

impl CastleOptions {
    pub open spec fn king_side(self) -> bool {
        self == CastleOptions::KingSide || self == CastleOptions::BothSides
    }

    pub open spec fn queen_side(self) -> bool {
        self == CastleOptions::QueenSide || self == CastleOptions::BothSides
    }
}

/// The FEN letters of one side's rights, king side first.
pub open spec fn options_field(o: CastleOptions, king: char, queen: char) -> Seq<char> {
    match o {
        CastleOptions::KingSide => seq![king],
        CastleOptions::QueenSide => seq![queen],
        CastleOptions::BothSides => seq![king, queen],
        CastleOptions::NoSide => Seq::<char>::empty(),
    }
}

/// The FEN castling field of `r`: `-` when neither side may castle.
pub open spec fn castle_field(r: CastleRules) -> Seq<char> {
    let s = options_field(r.white, 'K', 'Q') + options_field(r.black, 'k', 'q');
    if s.len() == 0 {
        seq!['-']
    } else {
        s
    }
}

/// The rights after reading one more character of a castling field: `K`
/// grants king side, `Q` adds queen side.
pub open spec fn step_options(o: CastleOptions, king_letter: bool) -> CastleOptions {
    if king_letter {
        CastleOptions::KingSide
    } else if o == CastleOptions::KingSide {
        CastleOptions::BothSides
    } else {
        CastleOptions::QueenSide
    }
}

/// Reads a castling field from the left; `-` ends it, any other letter but
/// `KQkq` makes it invalid.
pub open spec fn castle_scan(s: Seq<char>, r: CastleRules) -> Option<CastleRules>
    decreases s.len(),
{
    if s.len() == 0 {
        Some(r)
    } else {
        let c = s[0];
        let rest = s.subrange(1, s.len() as int);
        if c == '-' {
            Some(r)
        } else if c == 'K' || c == 'Q' {
            castle_scan(rest, CastleRules { white: step_options(r.white, c == 'K'), ..r })
        } else if c == 'k' || c == 'q' {
            castle_scan(rest, CastleRules { black: step_options(r.black, c == 'k'), ..r })
        } else {
            None
        }
    }
}

pub open spec fn no_rights() -> CastleRules {
    CastleRules { white: CastleOptions::NoSide, black: CastleOptions::NoSide }
}

/// The rights that a FEN castling field grants, if it is valid.
pub open spec fn castle_of_field(s: Seq<char>) -> Option<CastleRules> {
    castle_scan(s, no_rights())
}

fn push_options(s: &mut String, o: CastleOptions, king: char, queen: char)
    ensures
        final(s)@ == old(s)@ + options_field(o, king, queen),
{
    match o {
        CastleOptions::KingSide => push_char(s, king),
        CastleOptions::QueenSide => push_char(s, queen),
        CastleOptions::BothSides => {
            push_char(s, king);
            push_char(s, queen);
        },
        CastleOptions::NoSide => {},
    }
    proof {
        assert(final(s)@ =~= old(s)@ + options_field(o, king, queen));
    }
}

impl CastleRules {
    /// The FEN castling field.
    pub fn to_string(&self) -> (r: String)
        ensures
            r@ == castle_field(*self),
    {
        let mut s = String::new();
        push_options(&mut s, self.white, 'K', 'Q');
        push_options(&mut s, self.black, 'k', 'q');
        proof {
            assert(s@ =~= options_field(self.white, 'K', 'Q') + options_field(self.black, 'k', 'q'));
        }
        if s.unicode_len() == 0 {
            let mut d = String::new();
            push_char(&mut d, '-');
            proof {
                assert(d@ =~= seq!['-']);
            }
            d
        } else {
            s
        }
    }

    pub fn white(&self) -> (r: &CastleOptions)
        ensures
            *r == self.white,
    {
        &self.white
    }

    pub fn black(&self) -> (r: &CastleOptions)
        ensures
            *r == self.black,
    {
        &self.black
    }
}

fn step_options_exec(o: CastleOptions, king_letter: bool) -> (r: CastleOptions)
    ensures
        r == step_options(o, king_letter),
{
    if king_letter {
        CastleOptions::KingSide
    } else {
        match o {
            CastleOptions::KingSide => CastleOptions::BothSides,
            _ => CastleOptions::QueenSide,
        }
    }
}

/// Reads the castling field of a FEN string.
pub fn fen_to_castle_rules(field: &str) -> (r: Result<CastleRules, FenError>)
    ensures
        r matches Ok(c) ==> castle_of_field(field@) == Some(c),
        r matches Err(e) ==> castle_of_field(field@) is None && e == FenError::InvalidCastleRules,
{
    let n = field.unicode_len();
    let mut rules = CastleRules { white: CastleOptions::NoSide, black: CastleOptions::NoSide };
    let mut i: usize = 0;
    proof {
        assert(field@.subrange(0, n as int) =~= field@);
    }
    while i < n
        invariant
            n == field@.len(),
            0 <= i <= n,
            castle_of_field(field@) == castle_scan(field@.subrange(i as int, n as int), rules),
        decreases n - i,
    {
        let c = field.get_char(i);
        let ghost rest = field@.subrange(i as int, n as int);
        proof {
            assert(rest[0] == c);
            assert(rest.subrange(1, rest.len() as int) =~= field@.subrange(i + 1, n as int));
        }
        if c == '-' {
            return Ok(rules);
        } else if c == 'K' || c == 'Q' {
            rules = CastleRules { white: step_options_exec(rules.white, c == 'K'), ..rules };
        } else if c == 'k' || c == 'q' {
            rules = CastleRules { black: step_options_exec(rules.black, c == 'k'), ..rules };
        } else {
            return Err(FenError::InvalidCastleRules);
        }
        i = i + 1;
    }
    Ok(rules)
}

/// Reading the field that `castle_field` writes gives the rights back.
pub proof fn lemma_castle_field_round_trip(r: CastleRules)
    ensures
        castle_of_field(castle_field(r)) == Some(r),
{
    let w = options_field(r.white, 'K', 'Q');
    let b = options_field(r.black, 'k', 'q');
    let s = w + b;
    reveal_with_fuel(castle_scan, 5);
    if s.len() == 0 {
        assert(castle_field(r) == seq!['-']);
        assert(castle_field(r)[0] == '-');
    } else {
        assert(castle_field(r) == s);
        match r.white {
            CastleOptions::KingSide => {
                assert(s.subrange(1, s.len() as int) =~= b);
            },
            CastleOptions::QueenSide => {
                assert(s.subrange(1, s.len() as int) =~= b);
            },
            CastleOptions::BothSides => {
                assert(s.subrange(1, s.len() as int) =~= seq!['Q'] + b);
                assert((seq!['Q'] + b).subrange(1, b.len() + 1 as int) =~= b);
            },
            CastleOptions::NoSide => {
                assert(s =~= b);
            },
        }
        let after_w = CastleRules { white: r.white, black: CastleOptions::NoSide };
        assert(castle_scan(s, no_rights()) == castle_scan(b, after_w)) by {
            lemma_scan_white(r.white, b);
        }
        lemma_scan_black(r.black, r.white);
    }
}

proof fn lemma_scan_white(o: CastleOptions, b: Seq<char>)
    ensures
        castle_scan(options_field(o, 'K', 'Q') + b, no_rights()) == castle_scan(
            b,
            CastleRules { white: o, black: CastleOptions::NoSide },
        ),
{
    let s = options_field(o, 'K', 'Q') + b;
    reveal_with_fuel(castle_scan, 3);
    match o {
        CastleOptions::KingSide => {
            assert(s[0] == 'K');
            assert(s.subrange(1, s.len() as int) =~= b);
        },
        CastleOptions::QueenSide => {
            assert(s[0] == 'Q');
            assert(s.subrange(1, s.len() as int) =~= b);
        },
        CastleOptions::BothSides => {
            assert(s[0] == 'K');
            let t = s.subrange(1, s.len() as int);
            assert(t[0] == 'Q');
            assert(t.subrange(1, t.len() as int) =~= b);
        },
        CastleOptions::NoSide => {
            assert(s =~= b);
        },
    }
}

proof fn lemma_scan_black(o: CastleOptions, w: CastleOptions)
    ensures
        castle_scan(options_field(o, 'k', 'q'), CastleRules { white: w, black: CastleOptions::NoSide })
            == Some(CastleRules { white: w, black: o }),
{
    let s = options_field(o, 'k', 'q');
    reveal_with_fuel(castle_scan, 3);
    match o {
        CastleOptions::KingSide => {
            assert(s.subrange(1, s.len() as int) =~= Seq::<char>::empty());
        },
        CastleOptions::QueenSide => {
            assert(s.subrange(1, s.len() as int) =~= Seq::<char>::empty());
        },
        CastleOptions::BothSides => {
            let t = s.subrange(1, s.len() as int);
            assert(t =~= seq!['q']);
            assert(t.subrange(1, t.len() as int) =~= Seq::<char>::empty());
        },
        CastleOptions::NoSide => {},
    }
}

} // verus!
