//! A room: one board, the history of its moves with an undo/redo cursor,
//! and the users in it.
use vstd::prelude::*;
use crate::chess_board::{ChessBoard, ChessBoardBuilder, built_from, castle_consistent, parse_fen, trash_text};
use crate::enums::{ChessBoardError, Move};
use crate::position::{Position, parse_square};
use crate::stone::{Stone, stone_of_tag};
use crate::moves::moved;
use crate::text::{copy_string, push_all, push_char, same_text, string_of};

verus! {

/// The board a new room starts from unless it is given another.
pub const DEFAULT_FEN: &'static str = "rnbqkbnr/pppppppp/8/8/8/8/PPPPPPPP/RNBQKBNR w KQkq - 0 1";

#[derive(Clone, Copy, Debug, PartialEq, Eq, Structural)]
pub enum UserStatus {
    Online,
    Offline,
    Away,
}

/// The two switches of a board, as rooms pass them around.
#[derive(Clone, Copy, Debug, PartialEq, Eq, Structural)]
pub struct ChessBoardOptions {
    pub validation: bool,
    pub sync: bool,
}

impl ChessBoardOptions {
    pub fn validation(&self) -> (r: bool)
        ensures
            r == self.validation,
    {
        self.validation
    }

    pub fn sync(&self) -> (r: bool)
        ensures
            r == self.sync,
    {
        self.sync
    }
}

/// A connected player. `disconected_at` holds the time of the last
/// disconnection while the user is away.
#[derive(Debug)]
pub struct User {
    pub id: String,
    pub name: String,
    pub current_room: String,
    pub disconected_at: Option<u64>,
}

/// The status word of a user: `away` after a disconnection, else `online`.
pub open spec fn status_text(away: bool) -> Seq<char> {
    if away {
        seq!['a', 'w', 'a', 'y']
    } else {
        seq!['o', 'n', 'l', 'i', 'n', 'e']
    }
}

/// How a user is announced: `id:name:status`.
pub open spec fn user_text(u: User) -> Seq<char> {
    u.id@ + seq![':'] + u.name@ + seq![':'] + status_text(u.disconected_at is Some)
}

impl User {
    pub fn new(id: String, name: String, current_room: String, disconected_at: Option<u64>) -> (r: User)
        ensures
            r.id == id,
            r.name == name,
            r.current_room == current_room,
            r.disconected_at == disconected_at,
    {
        User { id, name, current_room, disconected_at }
    }

    /// `id:name:status`.
    pub fn to_string(&self) -> (r: String)
        ensures
            r@ == user_text(*self),
    {
        let mut s = copy_string(&self.id);
        push_char(&mut s, ':');
        push_all(&mut s, self.name.as_str());
        push_char(&mut s, ':');
        if self.disconected_at.is_some() {
            push_all(&mut s, "away");
            proof {
                reveal_strlit("away");
            }
        } else {
            push_all(&mut s, "online");
            proof {
                reveal_strlit("online");
            }
        }
        proof {
            assert(s@ =~= user_text(*self));
        }
        s
    }

    /// A copy of the user.
    pub fn copy(&self) -> (r: User)
        ensures
            r@ == self@,
    {
        User {
            id: copy_string(&self.id),
            name: copy_string(&self.name),
            current_room: copy_string(&self.current_room),
            disconected_at: self.disconected_at,
        }
    }
}

/// What a user is, as plain values.
pub struct UserView {
    pub id: Seq<char>,
    pub name: Seq<char>,
    pub current_room: Seq<char>,
    pub disconected_at: Option<u64>,
}

impl View for User {
    type V = UserView;

    open spec fn view(&self) -> UserView {
        UserView {
            id: self.id@,
            name: self.name@,
            current_room: self.current_room@,
            disconected_at: self.disconected_at,
        }
    }
}

/// One recorded move with the position before and after it.
#[derive(Debug)]
pub struct MoveResult {
    pub from: Option<Position>,
    pub to: Option<Position>,
    /// The stone that the move's tag names, if the tag names one.
    pub stone: Option<Stone>,
    pub chess_board_move: Move,
    pub msg: String,
    pub previous_fen: String,
    pub previous_trash: String,
    pub current_fen: String,
    pub current_trash: String,
}

/// A recorded move as plain values.
pub struct MoveView {
    pub from: Option<Position>,
    pub to: Option<Position>,
    pub stone: Option<Stone>,
    pub chess_board_move: Move,
    pub msg: Seq<char>,
    pub previous_fen: Seq<char>,
    pub previous_trash: Seq<char>,
    pub current_fen: Seq<char>,
    pub current_trash: Seq<char>,
}

impl View for MoveResult {
    type V = MoveView;

    open spec fn view(&self) -> MoveView {
        MoveView {
            from: self.from,
            to: self.to,
            stone: self.stone,
            chess_board_move: self.chess_board_move,
            msg: self.msg@,
            previous_fen: self.previous_fen@,
            previous_trash: self.previous_trash@,
            current_fen: self.current_fen@,
            current_trash: self.current_trash@,
        }
    }
}

impl MoveResult {
    pub fn copy(&self) -> (r: MoveResult)
        ensures
            r@ == self@,
    {
        MoveResult {
            from: self.from,
            to: self.to,
            stone: self.stone,
            chess_board_move: self.chess_board_move,
            msg: copy_string(&self.msg),
            previous_fen: copy_string(&self.previous_fen),
            previous_trash: copy_string(&self.previous_trash),
            current_fen: copy_string(&self.current_fen),
            current_trash: copy_string(&self.current_trash),
        }
    }
}

/// Why an undo or a redo did nothing.
#[derive(Clone, Copy, Debug, PartialEq, Eq, Structural)]
pub enum HistoryError {
    /// The cursor is at that end of the history.
    NoMoreMoves,
    /// The stored position could not be set up again.
    BuildFailed,
}

#[derive(Debug)]
pub struct Room {
    pub original_fen: String,
    pub current_fen: String,
    pub chess_board: ChessBoard,
    pub moves: Vec<MoveResult>,
    pub sessions: Vec<User>,
    pub original_trash: String,
    pub trash: String,
    pub empty_at: Option<u64>,
    pub current_move_index: Option<usize>,
}

/// A board can be set up from this FEN and captured-stones string.
pub open spec fn builds(fen: Seq<char>, trash: Seq<char>, validation: bool) -> bool {
    parse_fen(fen, trash) is Ok && !(validation && !castle_consistent(
        parse_fen(fen, trash).unwrap().grid,
        parse_fen(fen, trash).unwrap().castle,
    ))
}

/// `b` is the board set up from `fen` and `trash` with the given switches.
pub open spec fn board_of(b: ChessBoard, fen: Seq<char>, trash: Seq<char>, validation: bool, sync: bool) -> bool {
    builds(fen, trash, validation) && built_from(
        b,
        parse_fen(fen, trash).unwrap(),
        fen,
        b.is_white_view,
        validation,
        sync,
    )
}

/// The options string: the names of the switches that are on.
pub open spec fn options_text(validation: bool, sync: bool) -> Seq<char> {
    if validation && sync {
        seq!['v', 'a', 'l', 'i', 'd', 'a', 't', 'i', 'o', 'n', ' ', 's', 'y', 'n', 'c']
    } else if validation {
        seq!['v', 'a', 'l', 'i', 'd', 'a', 't', 'i', 'o', 'n']
    } else if sync {
        seq!['s', 'y', 'n', 'c']
    } else {
        Seq::<char>::empty()
    }
}

/// The position of the first user with id `id`.
pub open spec fn index_of_id(s: Seq<User>, id: Seq<char>, n: int) -> Option<int>
    decreases n,
{
    if n <= 0 {
        None
    } else {
        match index_of_id(s, id, n - 1) {
            Some(i) => Some(i),
            None => if s[n - 1].id@ == id {
                Some(n - 1)
            } else {
                None
            },
        }
    }
}

/// No two users share an id.
pub open spec fn unique_ids(s: Seq<User>) -> bool {
    forall|i: int, j: int| 0 <= i < j < s.len() ==> s[i].id@ != s[j].id@
}

pub proof fn lemma_index_of_id(s: Seq<User>, id: Seq<char>, n: int)
    requires
        0 <= n <= s.len(),
    ensures
        index_of_id(s, id, n) matches Some(i) ==> 0 <= i < n && s[i].id@ == id,
        index_of_id(s, id, n) is None ==> forall|j: int| 0 <= j < n ==> s[j].id@ != id,
    decreases n,
{
    if n > 0 {
        lemma_index_of_id(s, id, n - 1);
    }
}

/// Finds the user with id `id`.
pub fn find_user(s: &Vec<User>, id: &str) -> (r: Option<usize>)
    ensures
        r matches Some(i) ==> index_of_id(s@, id@, s@.len() as int) == Some(i as int) && i < s@.len()
            && s@[i as int].id@ == id@,
        r is None ==> index_of_id(s@, id@, s@.len() as int) is None && forall|j: int|
            0 <= j < s@.len() ==> s@[j].id@ != id@,
{
    let mut i: usize = 0;
    while i < s.len()
        invariant
            i <= s@.len(),
            index_of_id(s@, id@, i as int) is None,
            forall|j: int| 0 <= j < i ==> s@[j].id@ != id@,
        decreases s@.len() - i,
    {
        if same_text(s[i].id.as_str(), id) {
            proof {
                assert(index_of_id(s@, id@, i + 1) == Some(i as int));
                lemma_index_stable(s@, id@, i + 1, s@.len() as int);
            }
            return Some(i);
        }
        i = i + 1;
    }
    None
}

proof fn lemma_index_stable(s: Seq<User>, id: Seq<char>, n: int, m: int)
    requires
        n <= m,
        index_of_id(s, id, n) is Some,
    ensures
        index_of_id(s, id, m) == index_of_id(s, id, n),
    decreases m - n,
{
    if n < m {
        lemma_index_stable(s, id, n, m - 1);
    }
}

impl Room {
    /// The board is well formed, the cursor points into the history and no
    /// two users share an id.
    pub open spec fn wf(&self) -> bool {
        &&& self.chess_board.wf()
        &&& (self.current_move_index matches Some(i) ==> i < self.moves@.len())
        &&& unique_ids(self.sessions@)
    }

    /// The current position is the one after the move at the cursor.
    pub open spec fn at_cursor(&self) -> bool {
        self.current_move_index matches Some(i) ==> self.current_fen@ == self.moves@[i as int]@.current_fen
            && self.trash@ == self.moves@[i as int]@.current_trash
    }

    /// A room on `fen` (or the default board) with `trash` (or none) as
    /// captured stones, without validation and with sync, empty since `now`.
    pub fn new(fen: Option<String>, trash: Option<String>, now: u64) -> (r: Result<Room, ()>)
        ensures
            ({
                let f = match fen {
                    Some(f) => f@,
                    None => DEFAULT_FEN@,
                };
                let t = match trash {
                    Some(t) => t@,
                    None => Seq::<char>::empty(),
                };
                match r {
                    Ok(room) => {
                        &&& builds(f, t, false)
                        &&& room.wf()
                        &&& board_of(room.chess_board, f, t, false, true)
                        &&& room.original_fen@ == f
                        &&& room.current_fen@ == f
                        &&& room.original_trash@ == t
                        &&& room.trash@ == t
                        &&& room.moves@.len() == 0
                        &&& room.sessions@.len() == 0
                        &&& room.current_move_index is None
                        &&& room.empty_at == Some(now)
                    },
                    Err(_) => !builds(f, t, false),
                }
            }),
    {
        let fen = match fen {
            Some(f) => f,
            None => string_of(DEFAULT_FEN),
        };
        let trash = match trash {
            Some(t) => t,
            None => String::new(),
        };
        let chess_board = match ChessBoardBuilder::new().fen(fen.as_str()).deleted_stones(
            trash.as_str(),
        ).validation(false).sync(true).build() {
            Ok(b) => b,
            Err(_) => {
                return Err(());
            },
        };
        Ok(
            Room {
                original_fen: copy_string(&fen),
                current_fen: fen,
                chess_board,
                moves: Vec::new(),
                sessions: Vec::new(),
                original_trash: copy_string(&trash),
                trash,
                empty_at: Some(now),
                current_move_index: None,
            },
        )
    }

    pub fn sessions(&self) -> (r: &Vec<User>)
        ensures
            r == &self.sessions,
    {
        &self.sessions
    }

    /// Puts `user` in the room under `id`, replacing a user with that id.
    pub fn insert_session(&mut self, id: String, user: User)
        requires
            old(self).wf(),
            id@ == user.id@,
        ensures
            final(self).wf(),
            index_of_id(final(self).sessions@, id@, final(self).sessions@.len() as int) matches Some(
                i,
            ) && final(self).sessions@[i] == user,
            forall|k: Seq<char>|
                k != id@ ==> #[trigger] index_of_id(final(self).sessions@, k, final(self).sessions@.len() as int)
                    == index_of_id(old(self).sessions@, k, old(self).sessions@.len() as int),
            forall|j: int|
                0 <= j < old(self).sessions@.len() && old(self).sessions@[j].id@ != id@ ==> #[trigger] final(self).sessions@[j]
                    == old(self).sessions@[j],
            final(self).chess_board == old(self).chess_board,
            final(self).moves == old(self).moves,
            final(self).current_move_index == old(self).current_move_index,
            final(self).current_fen == old(self).current_fen,
            final(self).trash == old(self).trash,
            final(self).empty_at == old(self).empty_at,
    {
        let ghost old_s = self.sessions@;
        match find_user(&self.sessions, id.as_str()) {
            Some(i) => {
                self.sessions.set(i, user);
                proof {
                    lemma_index_of_id(self.sessions@, id@, self.sessions@.len() as int);
                    assert forall|k: Seq<char>| k != id@ implies (#[trigger] index_of_id(
                        self.sessions@,
                        k,
                        self.sessions@.len() as int,
                    ) == index_of_id(old_s, k, old_s.len() as int)) by {
                        lemma_index_update(old_s, i as int, self.sessions@, k, old_s.len() as int);
                    }
                    assert(index_of_id(self.sessions@, id@, self.sessions@.len() as int) == Some(i as int)) by {
                        lemma_index_update_same(old_s, i as int, self.sessions@, id@, old_s.len() as int);
                    }
                }
            },
            None => {
                self.sessions.push(user);
                proof {
                    let n = old_s.len() as int;
                    assert(self.sessions@.drop_last() =~= old_s);
                    assert forall|k: Seq<char>| k != id@ implies (#[trigger] index_of_id(
                        self.sessions@,
                        k,
                        self.sessions@.len() as int,
                    ) == index_of_id(old_s, k, old_s.len() as int)) by {
                        lemma_index_prefix(old_s, self.sessions@, k, n);
                    }
                    lemma_index_prefix(old_s, self.sessions@, id@, n);
                    assert(index_of_id(self.sessions@, id@, n + 1) == Some(n));
                }
            },
        }
    }

    /// Takes the user with id `id` out of the room.
    pub fn remove_session(&mut self, id: &str) -> (r: Option<User>)
        requires
            old(self).wf(),
        ensures
            final(self).wf(),
            match index_of_id(old(self).sessions@, id@, old(self).sessions@.len() as int) {
                Some(i) => r == Some(old(self).sessions@[i]) && final(self).sessions@ == old(self).sessions@.remove(i),
                None => r is None && final(self).sessions@ == old(self).sessions@,
            },
            forall|j: int| 0 <= j < final(self).sessions@.len() ==> (#[trigger] final(self).sessions@[j]).id@ != id@,
            final(self).chess_board == old(self).chess_board,
            final(self).moves == old(self).moves,
            final(self).current_move_index == old(self).current_move_index,
            final(self).current_fen == old(self).current_fen,
            final(self).trash == old(self).trash,
            final(self).empty_at == old(self).empty_at,
    {
        match find_user(&self.sessions, id) {
            Some(i) => {
                let ghost old_s = self.sessions@;
                let u = self.sessions.remove(i);
                proof {
                    assert forall|a: int, b: int| 0 <= a < b < self.sessions@.len() implies self.sessions@[a].id@
                        != self.sessions@[b].id@ by {
                        let a2 = if a < i { a } else { a + 1 };
                        let b2 = if b < i { b } else { b + 1 };
                        assert(self.sessions@[a] == old_s[a2]);
                        assert(self.sessions@[b] == old_s[b2]);
                    }
                    assert forall|j: int| 0 <= j < self.sessions@.len() implies (#[trigger] self.sessions@[j]).id@
                        != id@ by {
                        let j2 = if j < i { j } else { j + 1 };
                        assert(self.sessions@[j] == old_s[j2]);
                    }
                }
                Some(u)
            },
            None => None,
        }
    }

    /// Marks the user with id `id` as disconnected since `now`.
    pub fn disconnect_session(&mut self, id: &str, now: u64)
        requires
            old(self).wf(),
        ensures
            final(self).wf(),
            final(self).sessions@.len() == old(self).sessions@.len(),
            forall|j: int|
                0 <= j < old(self).sessions@.len() ==> (#[trigger] final(self).sessions@[j])@ == if old(self).sessions@[j].id@
                    == id@ {
                    UserView { disconected_at: Some(now), ..old(self).sessions@[j]@ }
                } else {
                    old(self).sessions@[j]@
                },
            final(self).chess_board == old(self).chess_board,
            final(self).moves == old(self).moves,
            final(self).current_move_index == old(self).current_move_index,
            final(self).current_fen == old(self).current_fen,
            final(self).trash == old(self).trash,
            final(self).empty_at == old(self).empty_at,
    {
        self.set_disconnected(id, Some(now));
    }

    /// Marks the user with id `id` as connected again.
    pub fn connect_session(&mut self, id: &str)
        requires
            old(self).wf(),
        ensures
            final(self).wf(),
            final(self).sessions@.len() == old(self).sessions@.len(),
            forall|j: int|
                0 <= j < old(self).sessions@.len() ==> (#[trigger] final(self).sessions@[j])@ == if old(self).sessions@[j].id@
                    == id@ {
                    UserView { disconected_at: None, ..old(self).sessions@[j]@ }
                } else {
                    old(self).sessions@[j]@
                },
            final(self).chess_board == old(self).chess_board,
            final(self).moves == old(self).moves,
            final(self).current_move_index == old(self).current_move_index,
            final(self).current_fen == old(self).current_fen,
            final(self).trash == old(self).trash,
            final(self).empty_at == old(self).empty_at,
    {
        self.set_disconnected(id, None);
    }

    fn set_disconnected(&mut self, id: &str, at: Option<u64>)
        requires
            old(self).wf(),
        ensures
            final(self).wf(),
            final(self).sessions@.len() == old(self).sessions@.len(),
            forall|j: int|
                0 <= j < old(self).sessions@.len() ==> (#[trigger] final(self).sessions@[j])@ == if old(self).sessions@[j].id@
                    == id@ {
                    UserView { disconected_at: at, ..old(self).sessions@[j]@ }
                } else {
                    old(self).sessions@[j]@
                },
            final(self).chess_board == old(self).chess_board,
            final(self).moves == old(self).moves,
            final(self).current_move_index == old(self).current_move_index,
            final(self).current_fen == old(self).current_fen,
            final(self).trash == old(self).trash,
            final(self).empty_at == old(self).empty_at,
    {
        let n = self.sessions.len();
        let mut i: usize = 0;
        while i < n
            invariant
                n == self.sessions@.len(),
                n == old(self).sessions@.len(),
                i <= n,
                self.chess_board == old(self).chess_board,
                self.moves == old(self).moves,
                self.current_move_index == old(self).current_move_index,
                self.current_fen == old(self).current_fen,
                self.trash == old(self).trash,
                self.empty_at == old(self).empty_at,
                forall|j: int|
                    0 <= j < n ==> (#[trigger] self.sessions@[j]).id@ == old(self).sessions@[j].id@,
                forall|j: int|
                    i <= j < n ==> (#[trigger] self.sessions@[j])@ == old(self).sessions@[j]@,
                forall|j: int|
                    0 <= j < i ==> (#[trigger] self.sessions@[j])@ == if old(self).sessions@[j].id@ == id@ {
                        UserView { disconected_at: at, ..old(self).sessions@[j]@ }
                    } else {
                        old(self).sessions@[j]@
                    },
            decreases n - i,
        {
            if same_text(self.sessions[i].id.as_str(), id) {
                let u = self.sessions[i].copy();
                let nu = User { disconected_at: at, ..u };
                self.sessions.set(i, nu);
            }
            i = i + 1;
        }
        proof {
            assert forall|a: int, b: int| 0 <= a < b < self.sessions@.len() implies self.sessions@[a].id@
                != self.sessions@[b].id@ by {
                assert(old(self).sessions@[a].id@ != old(self).sessions@[b].id@);
            }
        }
    }

    /// Every user of the room as `id:name:status`, in the order they came.
    pub fn usernames(&self) -> (r: Vec<String>)
        ensures
            r@.len() == self.sessions@.len(),
            forall|j: int| 0 <= j < r@.len() ==> (#[trigger] r@[j])@ == user_text(self.sessions@[j]),
    {
        let mut r: Vec<String> = Vec::new();
        let mut i: usize = 0;
        while i < self.sessions.len()
            invariant
                i <= self.sessions@.len(),
                r@.len() == i,
                forall|j: int| 0 <= j < i ==> (#[trigger] r@[j])@ == user_text(self.sessions@[j]),
            decreases self.sessions@.len() - i,
        {
            r.push(self.sessions[i].to_string());
            i = i + 1;
        }
        r
    }

    /// The switches of the room's board that are on, by name, separated by
    /// one space.
    pub fn options_string(&self) -> (r: String)
        ensures
            r@ == options_text(self.chess_board.validation, self.chess_board.sync),
    {
        let validation = self.chess_board.validation;
        let sync = self.chess_board.sync;
        let mut s = String::new();
        proof {
            reveal_strlit("validation");
            reveal_strlit("sync");
        }
        if validation {
            push_all(&mut s, "validation");
        }
        if sync {
            if validation {
                push_char(&mut s, ' ');
            }
            push_all(&mut s, "sync");
        }
        proof {
            assert(s@ =~= options_text(validation, sync));
        }
        s
    }
}

proof fn lemma_index_update(old_s: Seq<User>, i: int, new_s: Seq<User>, k: Seq<char>, n: int)
    requires
        0 <= i < old_s.len(),
        new_s.len() == old_s.len(),
        0 <= n <= old_s.len(),
        old_s[i].id@ != k,
        new_s[i].id@ == old_s[i].id@,
        forall|j: int| 0 <= j < old_s.len() && j != i ==> new_s[j] == old_s[j],
    ensures
        index_of_id(new_s, k, n) == index_of_id(old_s, k, n),
    decreases n,
{
    if n > 0 {
        lemma_index_update(old_s, i, new_s, k, n - 1);
    }
}

proof fn lemma_index_update_same(old_s: Seq<User>, i: int, new_s: Seq<User>, k: Seq<char>, n: int)
    requires
        0 <= i < old_s.len(),
        new_s.len() == old_s.len(),
        i < n <= old_s.len(),
        index_of_id(old_s, k, old_s.len() as int) == Some(i),
        new_s[i].id@ == k,
        forall|j: int| 0 <= j < old_s.len() && j != i ==> new_s[j] == old_s[j],
    ensures
        index_of_id(new_s, k, n) == Some(i),
    decreases n,
{
    lemma_index_of_id(old_s, k, old_s.len() as int);
    if n > i + 1 {
        lemma_index_update_same(old_s, i, new_s, k, n - 1);
    } else {
        lemma_index_none_below(old_s, new_s, k, i);
    }
}

proof fn lemma_index_none_below(old_s: Seq<User>, new_s: Seq<User>, k: Seq<char>, i: int)
    requires
        0 <= i < old_s.len(),
        new_s.len() == old_s.len(),
        index_of_id(old_s, k, old_s.len() as int) == Some(i),
        forall|j: int| 0 <= j < i ==> new_s[j] == old_s[j],
    ensures
        index_of_id(new_s, k, i) is None,
{
    lemma_first_is_first(old_s, k, old_s.len() as int, i);
    lemma_none_when_absent(new_s, k, i);
}

proof fn lemma_first_is_first(s: Seq<User>, k: Seq<char>, n: int, i: int)
    requires
        0 <= n <= s.len(),
        index_of_id(s, k, n) == Some(i),
    ensures
        forall|j: int| 0 <= j < i ==> s[j].id@ != k,
    decreases n,
{
    if n > 0 {
        match index_of_id(s, k, n - 1) {
            Some(_) => lemma_first_is_first(s, k, n - 1, i),
            None => lemma_index_of_id(s, k, n - 1),
        }
    }
}

proof fn lemma_none_when_absent(s: Seq<User>, k: Seq<char>, n: int)
    requires
        0 <= n <= s.len(),
        forall|j: int| 0 <= j < n ==> s[j].id@ != k,
    ensures
        index_of_id(s, k, n) is None,
    decreases n,
{
    if n > 0 {
        lemma_none_when_absent(s, k, n - 1);
    }
}

proof fn lemma_index_prefix(a: Seq<User>, b: Seq<User>, k: Seq<char>, n: int)
    requires
        0 <= n <= a.len(),
        a.len() <= b.len(),
        forall|j: int| 0 <= j < a.len() ==> b[j] == a[j],
    ensures
        index_of_id(b, k, n) == index_of_id(a, k, n),
    decreases n,
{
    if n > 0 {
        lemma_index_prefix(a, b, k, n - 1);
    }
}

/// The cursor after an undo from `i`.
pub open spec fn cursor_before(i: usize) -> Option<usize> {
    if i > 0 {
        Some((i - 1) as usize)
    } else {
        None
    }
}

/// The cursor position that a redo goes to.
pub open spec fn cursor_after(c: Option<usize>) -> int {
    match c {
        Some(i) => i + 1,
        None => 0,
    }
}

/// `r1` is `r0` with another board and current position, all else kept.
pub open spec fn same_but_position(r0: Room, r1: Room) -> bool {
    &&& r1.moves@ == r0.moves@
    &&& r1.sessions@ == r0.sessions@
    &&& r1.original_fen == r0.original_fen
    &&& r1.original_trash == r0.original_trash
    &&& r1.empty_at == r0.empty_at
}

/// What `undo` does: step the cursor back and set up the position before
/// the move at the cursor; nothing when there is no move to undo or that
/// position cannot be set up.
pub open spec fn undo_step(r0: Room, r1: Room, res: Result<MoveResult, HistoryError>) -> bool {
    match r0.current_move_index {
        None => res == Err::<MoveResult, HistoryError>(HistoryError::NoMoreMoves) && r1 == r0,
        Some(i) => {
            let m = r0.moves@[i as int]@;
            if builds(m.previous_fen, m.previous_trash, r0.chess_board.validation) {
                &&& res matches Ok(mr) && mr@ == m
                &&& r1.current_move_index == cursor_before(i)
                &&& r1.current_fen@ == m.previous_fen
                &&& r1.trash@ == m.previous_trash
                &&& board_of(
                    r1.chess_board,
                    m.previous_fen,
                    m.previous_trash,
                    r0.chess_board.validation,
                    r0.chess_board.sync,
                )
                &&& same_but_position(r0, r1)
            } else {
                res == Err::<MoveResult, HistoryError>(HistoryError::BuildFailed) && r1 == r0
            }
        },
    }
}

/// What `redo` does: step the cursor forward and set up the position after
/// the move there; nothing when there is no move to redo or that position
/// cannot be set up.
pub open spec fn redo_step(r0: Room, r1: Room, res: Result<MoveResult, HistoryError>) -> bool {
    let next = cursor_after(r0.current_move_index);
    if next >= r0.moves@.len() {
        res == Err::<MoveResult, HistoryError>(HistoryError::NoMoreMoves) && r1 == r0
    } else {
        let m = r0.moves@[next]@;
        if builds(m.current_fen, m.current_trash, r0.chess_board.validation) {
            &&& res matches Ok(mr) && mr@ == m
            &&& r1.current_move_index == Some(next as usize)
            &&& r1.current_fen@ == m.current_fen
            &&& r1.trash@ == m.current_trash
            &&& board_of(
                r1.chess_board,
                m.current_fen,
                m.current_trash,
                r0.chess_board.validation,
                r0.chess_board.sync,
            )
            &&& same_but_position(r0, r1)
        } else {
            res == Err::<MoveResult, HistoryError>(HistoryError::BuildFailed) && r1 == r0
        }
    }
}

/// Undoing a move and redoing it gives back the position (FEN and captured
/// stones) from before the undo.
pub proof fn lemma_undo_then_redo(
    r0: Room,
    r1: Room,
    r2: Room,
    m1: MoveResult,
    m2: MoveResult,
)
    requires
        r0.wf(),
        r0.at_cursor(),
        undo_step(r0, r1, Ok(m1)),
        redo_step(r1, r2, Ok(m2)),
    ensures
        r2.current_fen@ == r0.current_fen@,
        r2.trash@ == r0.trash@,
        r2.current_move_index == r0.current_move_index,
{
}

/// After an undo, a redo always finds the undone move.
pub proof fn lemma_redo_after_undo_finds_move(r0: Room, r1: Room, m1: MoveResult)
    requires
        r0.wf(),
        undo_step(r0, r1, Ok(m1)),
    ensures
        cursor_after(r1.current_move_index) < r1.moves@.len(),
        r1.moves@[cursor_after(r1.current_move_index)]@ == m1@,
{
}

/// Sets up a board from `fen` and `trash` with the given switches.
fn rebuild(fen: &String, trash: &String, validation: bool, sync: bool) -> (r: Option<ChessBoard>)
    ensures
        r matches Some(b) ==> board_of(b, fen@, trash@, validation, sync) && b.wf(),
        r is None ==> !builds(fen@, trash@, validation),
{
    match ChessBoardBuilder::new().fen(fen.as_str()).deleted_stones(trash.as_str()).validation(
        validation,
    ).sync(sync).build() {
        Ok(b) => Some(b),
        Err(_) => None,
    }
}

impl Room {
    /// Adds a move right after the cursor's position, dropping the moves
    /// that had been undone, and moves the cursor onto it.
    pub fn push_move(&mut self, result: MoveResult)
        requires
            old(self).wf(),
        ensures
            final(self).wf(),
            final(self).moves@ == old(self).moves@.subrange(0, cursor_after(old(self).current_move_index)).push(
                result,
            ),
            final(self).current_move_index matches Some(i) && i + 1 == final(self).moves@.len(),
            final(self).chess_board == old(self).chess_board,
            final(self).sessions == old(self).sessions,
            final(self).current_fen == old(self).current_fen,
            final(self).trash == old(self).trash,
            final(self).original_fen == old(self).original_fen,
            final(self).original_trash == old(self).original_trash,
            final(self).empty_at == old(self).empty_at,
    {
        self.truncate_moves_on_current_move();
        self.moves.push(result);
        self.current_move_index = Some(self.moves.len() - 1);
    }

    /// A copy of the move at `idx`.
    pub fn get_move(&self, idx: &usize) -> (r: Option<MoveResult>)
        ensures
            *idx < self.moves@.len() ==> (r matches Some(m) && m@ == self.moves@[*idx as int]@),
            *idx >= self.moves@.len() ==> r is None,
    {
        if *idx < self.moves.len() {
            Some(self.moves[*idx].copy())
        } else {
            None
        }
    }

    /// Steps the cursor back, handing out the move it was on.
    pub fn undo_move(&mut self) -> (r: Result<MoveResult, ()>)
        requires
            old(self).wf(),
        ensures
            final(self).wf(),
            match old(self).current_move_index {
                Some(i) => r matches Ok(m) && m@ == old(self).moves@[i as int]@
                    && final(self).current_move_index == cursor_before(i),
                None => r is Err && final(self).current_move_index is None,
            },
            final(self).moves == old(self).moves,
            final(self).chess_board == old(self).chess_board,
            final(self).sessions == old(self).sessions,
            final(self).current_fen == old(self).current_fen,
            final(self).trash == old(self).trash,
            final(self).original_fen == old(self).original_fen,
            final(self).original_trash == old(self).original_trash,
            final(self).empty_at == old(self).empty_at,
    {
        match self.current_move_index {
            Some(i) => {
                let result = self.get_move(&i);
                if i > 0 {
                    self.current_move_index = Some(i - 1);
                } else {
                    self.current_move_index = None;
                }
                match result {
                    Some(m) => Ok(m),
                    None => Err(()),
                }
            },
            None => Err(()),
        }
    }

    /// Steps the cursor forward, handing out the move it lands on.
    pub fn redo_move(&mut self) -> (r: Result<MoveResult, ()>)
        requires
            old(self).wf(),
        ensures
            final(self).wf(),
            cursor_after(old(self).current_move_index) < old(self).moves@.len() ==> (r matches Ok(m)
                && m@ == old(self).moves@[cursor_after(old(self).current_move_index)]@
                && final(self).current_move_index == Some(cursor_after(old(self).current_move_index) as usize)),
            cursor_after(old(self).current_move_index) >= old(self).moves@.len() ==> r is Err
                && final(self).current_move_index == old(self).current_move_index,
            final(self).moves == old(self).moves,
            final(self).chess_board == old(self).chess_board,
            final(self).sessions == old(self).sessions,
            final(self).current_fen == old(self).current_fen,
            final(self).trash == old(self).trash,
            final(self).original_fen == old(self).original_fen,
            final(self).original_trash == old(self).original_trash,
            final(self).empty_at == old(self).empty_at,
    {
        let n = self.moves.len();
        let next: usize = match self.current_move_index {
            Some(i) => i + 1,
            None => 0,
        };
        if next < self.moves.len() {
            self.current_move_index = Some(next);
            match self.get_move(&next) {
                Some(m) => Ok(m),
                None => Err(()),
            }
        } else {
            Err(())
        }
    }

    /// Drops the moves after the cursor; with no cursor, all of them.
    pub fn truncate_moves_on_current_move(&mut self)
        requires
            old(self).wf(),
        ensures
            final(self).wf(),
            final(self).moves@ == old(self).moves@.subrange(0, cursor_after(old(self).current_move_index)),
            final(self).current_move_index == old(self).current_move_index,
            final(self).chess_board == old(self).chess_board,
            final(self).sessions == old(self).sessions,
            final(self).current_fen == old(self).current_fen,
            final(self).trash == old(self).trash,
            final(self).original_fen == old(self).original_fen,
            final(self).original_trash == old(self).original_trash,
            final(self).empty_at == old(self).empty_at,
    {
        let n = self.moves.len();
        match self.current_move_index {
            Some(i) => self.moves.truncate(i + 1),
            None => self.moves.truncate(0),
        }
    }

    /// Goes back one move: sets up the position from before the move at the
    /// cursor, with the board's switches kept.
    pub fn undo(&mut self) -> (r: Result<MoveResult, HistoryError>)
        requires
            old(self).wf(),
        ensures
            final(self).wf(),
            undo_step(*old(self), *final(self), r),
    {
        let i = match self.current_move_index {
            Some(i) => i,
            None => {
                return Err(HistoryError::NoMoreMoves);
            },
        };
        let m = self.moves[i].copy();
        let board = match rebuild(
            &m.previous_fen,
            &m.previous_trash,
            self.chess_board.validation,
            self.chess_board.sync,
        ) {
            Some(b) => b,
            None => {
                return Err(HistoryError::BuildFailed);
            },
        };
        self.current_move_index = if i > 0 {
            Some(i - 1)
        } else {
            None
        };
        self.current_fen = copy_string(&m.previous_fen);
        self.trash = copy_string(&m.previous_trash);
        self.chess_board = board;
        Ok(m)
    }

    /// Goes forward one move: sets up the position after the move past the
    /// cursor, with the board's switches kept.
    pub fn redo(&mut self) -> (r: Result<MoveResult, HistoryError>)
        requires
            old(self).wf(),
        ensures
            final(self).wf(),
            redo_step(*old(self), *final(self), r),
    {
        let n = self.moves.len();
        let next: usize = match self.current_move_index {
            Some(i) => i + 1,
            None => 0,
        };
        if next >= self.moves.len() {
            return Err(HistoryError::NoMoreMoves);
        }
        let m = self.moves[next].copy();
        let board = match rebuild(
            &m.current_fen,
            &m.current_trash,
            self.chess_board.validation,
            self.chess_board.sync,
        ) {
            Some(b) => b,
            None => {
                return Err(HistoryError::BuildFailed);
            },
        };
        self.current_move_index = Some(next);
        self.current_fen = copy_string(&m.current_fen);
        self.trash = copy_string(&m.current_trash);
        self.chess_board = board;
        Ok(m)
    }

    /// Sets the room back to the position it started from, with the board's
    /// switches kept, and forgets its history. Nothing changes when that
    /// position cannot be set up.
    pub fn reset(&mut self) -> (r: Result<(), ()>)
        requires
            old(self).wf(),
        ensures
            final(self).wf(),
            builds(old(self).original_fen@, old(self).original_trash@, old(self).chess_board.validation)
                ==> {
                &&& r is Ok
                &&& final(self).current_fen@ == old(self).original_fen@
                &&& final(self).trash@ == old(self).original_trash@
                &&& final(self).current_move_index is None
                &&& final(self).moves@.len() == 0
                &&& board_of(
                    final(self).chess_board,
                    old(self).original_fen@,
                    old(self).original_trash@,
                    old(self).chess_board.validation,
                    old(self).chess_board.sync,
                )
                &&& final(self).sessions == old(self).sessions
                &&& final(self).empty_at == old(self).empty_at
            },
            !builds(old(self).original_fen@, old(self).original_trash@, old(self).chess_board.validation)
                ==> r is Err && *final(self) == *old(self),
    {
        let board = match rebuild(
            &self.original_fen,
            &self.original_trash,
            self.chess_board.validation,
            self.chess_board.sync,
        ) {
            Some(b) => b,
            None => {
                return Err(());
            },
        };
        self.current_fen = copy_string(&self.original_fen);
        self.trash = copy_string(&self.original_trash);
        self.current_move_index = None;
        self.moves = Vec::new();
        self.chess_board = board;
        Ok(())
    }

    /// Sets up the current position again with new switches. Nothing
    /// changes when it cannot be set up with them.
    pub fn set_options(&mut self, validation: bool, sync: bool) -> (r: Result<(), ()>)
        requires
            old(self).wf(),
        ensures
            final(self).wf(),
            builds(old(self).current_fen@, old(self).trash@, validation) ==> r is Ok && board_of(
                final(self).chess_board,
                old(self).current_fen@,
                old(self).trash@,
                validation,
                sync,
            ) && final(self).current_fen == old(self).current_fen && final(self).trash == old(self).trash
                && final(self).moves == old(self).moves && final(self).current_move_index
                == old(self).current_move_index && final(self).sessions == old(self).sessions
                && final(self).empty_at == old(self).empty_at,
            !builds(old(self).current_fen@, old(self).trash@, validation) ==> r is Err && *final(self)
                == *old(self),
    {
        match rebuild(&self.current_fen, &self.trash, validation, sync) {
            Some(b) => {
                self.chess_board = b;
                Ok(())
            },
            None => Err(()),
        }
    }
}

/// The text of a move as rooms announce it: `/move <piece> <from> <to>`.
pub open spec fn move_text(piece: Seq<char>, from: Seq<char>, to: Seq<char>) -> Seq<char> {
    seq!['/', 'm', 'o', 'v', 'e', ' '] + piece + seq![' '] + from + seq![' '] + to
}

/// `/move <piece> <from> <to>`.
pub fn move_message(piece: &str, from: &str, to: &str) -> (r: String)
    ensures
        r@ == move_text(piece@, from@, to@),
{
    let mut s = string_of("/move ");
    push_all(&mut s, piece);
    push_char(&mut s, ' ');
    push_all(&mut s, from);
    push_char(&mut s, ' ');
    push_all(&mut s, to);
    proof {
        reveal_strlit("/move ");
        assert(s@ =~= move_text(piece@, from@, to@));
    }
    s
}

/// A square given on the wire: an algebraic name, or anything else (such
/// as `deleted`) for the trash.
pub fn square_or_trash(s: &str) -> (r: Option<Position>)
    ensures
        r == parse_square(s@),
{
    match Position::from_str(s) {
        Ok(p) => Some(p),
        Err(_) => None,
    }
}

/// What `play` does: `r1` is `r0` after playing `piece` from `from` to
/// `to` with result `r`.
pub open spec fn played(
    r0: Room,
    r1: Room,
    piece: Seq<char>,
    from: Seq<char>,
    to: Seq<char>,
    r: Result<Move, ChessBoardError>,
) -> bool {
    &&& moved(r0.chess_board, r1.chess_board, piece, parse_square(from), parse_square(to), r)
    &&& (r is Err ==> r1 == r0)
    &&& r is Ok ==> {
        &&& r1.at_cursor()
        &&& r1.current_fen@ == r1.chess_board.fen@
        &&& r1.trash@ == trash_text(r1.chess_board.deleted_stones@)
        &&& r1.current_move_index matches Some(i) && i + 1 == r1.moves@.len()
        &&& r1.moves@.drop_last() == r0.moves@.subrange(0, cursor_after(r0.current_move_index))
        &&& r1.moves@.last()@ == (MoveView {
            from: parse_square(from),
            to: parse_square(to),
            stone: stone_of_tag(piece),
            chess_board_move: r.unwrap(),
            msg: move_text(piece, from, to),
            previous_fen: r0.chess_board.fen@,
            previous_trash: trash_text(r0.chess_board.deleted_stones@),
            current_fen: r1.chess_board.fen@,
            current_trash: trash_text(r1.chess_board.deleted_stones@),
        })
        &&& r1.sessions == r0.sessions
        &&& r1.empty_at == r0.empty_at
        &&& r1.original_fen == r0.original_fen
        &&& r1.original_trash == r0.original_trash
    }
}

impl Room {
    /// Plays a move on the room's board and records it after the cursor,
    /// dropping the moves that had been undone. A refused move changes
    /// nothing.
    pub fn play(&mut self, piece: &str, from: &str, to: &str) -> (r: Result<Move, ChessBoardError>)
        requires
            old(self).wf(),
        ensures
            final(self).wf(),
            played(*old(self), *final(self), piece@, from@, to@, r),
    {
        let from_position = square_or_trash(from);
        let to_position = square_or_trash(to);
        let previous_fen = copy_string(&self.chess_board.fen);
        let previous_trash = self.chess_board.trash_string();
        let mv = match self.chess_board.move_piece(piece, from_position, to_position) {
            Ok(m) => m,
            Err(e) => {
                return Err(e);
            },
        };
        self.current_fen = copy_string(&self.chess_board.fen);
        self.trash = self.chess_board.trash_string();
        let result = MoveResult {
            from: from_position,
            to: to_position,
            stone: match Stone::from_str(piece) {
                Ok(s) => Some(s),
                Err(_) => None,
            },
            chess_board_move: mv,
            msg: move_message(piece, from, to),
            previous_fen,
            previous_trash,
            current_fen: copy_string(&self.current_fen),
            current_trash: copy_string(&self.trash),
        };
        let ghost rv = result@;
        let ghost kept = self.moves@.subrange(0, cursor_after(self.current_move_index));
        self.push_move(result);
        proof {
            assert(self.moves@.drop_last() =~= kept);
            assert(self.moves@[kept.len() as int]@ == rv);
            assert(rv == (MoveView {
                from: parse_square(from@),
                to: parse_square(to@),
                stone: stone_of_tag(piece@),
                chess_board_move: mv,
                msg: move_text(piece@, from@, to@),
                previous_fen: old(self).chess_board.fen@,
                previous_trash: trash_text(old(self).chess_board.deleted_stones@),
                current_fen: self.chess_board.fen@,
                current_trash: trash_text(self.chess_board.deleted_stones@),
            }));
        }
        Ok(mv)
    }
}

} // verus!
