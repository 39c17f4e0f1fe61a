//! The display state of one stone: where it stands (nowhere once taken),
//! whether it is being dragged and whether it is in the trash.
use vstd::prelude::*;
use crate::position::{Position, square_name};
use crate::stone::{Stone, fen_char};
use crate::text::{push_char, string_of};

verus! {

#[derive(Clone, Copy, Debug)]
pub struct StoneSignal {
    pub position: Option<Position>,
    pub stone: Stone,
    pub dragging: bool,
    pub deleted: bool,
}

/// The key that tells stones apart on screen: `<square>_<letter>`, or
/// `deleted_<letter>` for a stone without a square.
pub open spec fn key_text(position: Option<Position>, stone: Stone) -> Seq<char> {
    let head = match position {
        Some(p) => square_name(p),
        None => seq!['d', 'e', 'l', 'e', 't', 'e', 'd'],
    };
    head + seq!['_', fen_char(stone)]
}

impl StoneSignal {
    pub fn new(position: Option<Position>, stone: Stone) -> (r: Self)
        ensures
            r.position == position,
            r.stone == stone,
            !r.dragging,
            !r.deleted,
    {
        Self { position, stone, dragging: false, deleted: false }
    }

    /// A stone in the trash.
    pub fn new_deleted(stone: Stone) -> (r: Self)
        ensures
            r.position is None,
            r.stone == stone,
            !r.dragging,
            r.deleted,
    {
        Self { position: None, stone, dragging: false, deleted: true }
    }

    pub fn is_deleted(&self) -> (r: bool)
        ensures
            r == self.deleted,
    {
        self.deleted
    }

    pub fn delete(&mut self)
        ensures
            *final(self) == (StoneSignal { deleted: true, ..*old(self) }),
    {
        self.deleted = true;
    }

    pub fn restore(&mut self)
        ensures
            *final(self) == (StoneSignal { deleted: false, ..*old(self) }),
    {
        self.deleted = false;
    }

    pub fn enable_dragging(&mut self)
        ensures
            *final(self) == (StoneSignal { dragging: true, ..*old(self) }),
    {
        self.dragging = true;
    }

    pub fn disable_dragging(&mut self)
        ensures
            *final(self) == (StoneSignal { dragging: false, ..*old(self) }),
    {
        self.dragging = false;
    }

    pub fn is_dragging(&self) -> (r: bool)
        ensures
            r == self.dragging,
    {
        self.dragging
    }

    pub fn set_position(&mut self, position: Option<Position>)
        ensures
            *final(self) == (StoneSignal { position, ..*old(self) }),
    {
        self.position = position;
    }

    pub fn position(&self) -> (r: Option<Position>)
        ensures
            r == self.position,
    {
        self.position
    }

    pub fn stone(&self) -> (r: Stone)
        ensures
            r == self.stone,
    {
        self.stone
    }

    /// `<square>_<letter>`, or `deleted_<letter>` without a square.
    pub fn unique_key(&self) -> (r: String)
        requires
            self.position matches Some(p) ==> p.valid(),
        ensures
            r@ == key_text(self.position, self.stone),
    {
        let mut s = match self.position {
            Some(p) => p.to_string(),
            None => {
                proof {
                    reveal_strlit("deleted");
                }
                string_of("deleted")
            },
        };
        push_char(&mut s, '_');
        push_char(&mut s, self.stone.char());
        proof {
            assert(s@ =~= key_text(self.position, self.stone));
        }
        s
    }
}

} // verus!
