//! The coordinator: the single owner of all rooms and users. Every event
//! is handled to completion, one at a time; handling it yields the texts to
//! send, which the transport delivers.
use vstd::prelude::*;
use crate::chess_board::{ChessBoard, checkmate, trash_text};
use crate::enums::{CastlePosition, ChessBoardError, Move};
use crate::moves::move_outcome;
use crate::messages::{
    command_message, command_text, sync_board_message, sync_board_text, sync_options_message,
    sync_users_message,
};
use crate::position::{Position, parse_square, square_name};
use crate::room::{
    builds, HistoryError, Room, User, UserView, find_user, index_of_id, move_text, played, square_or_trash,
    unique_ids, user_text,
};
use crate::turns::Turn;
use crate::text::{copy_string, push_all, same_text, string_of};

verus! {

/// A room under its name.
#[derive(Debug)]
pub struct RoomEntry {
    pub name: String,
    pub room: Room,
}

/// A text to deliver.
#[derive(Debug)]
pub enum Outbound {
    /// To every user of room `room` but `skip`, after `delay_ms`
    /// milliseconds.
    Broadcast { room: String, text: String, skip: Option<String>, delay_ms: u64 },
    /// To user `id` alone.
    Direct { id: String, text: String },
}

/// A text to deliver, as plain values.
pub enum OutboundView {
    Broadcast { room: Seq<char>, text: Seq<char>, skip: Option<Seq<char>>, delay_ms: u64 },
    Direct { id: Seq<char>, text: Seq<char> },
}

impl View for Outbound {
    type V = OutboundView;

    open spec fn view(&self) -> OutboundView {
        match self {
            Outbound::Broadcast { room, text, skip, delay_ms } => OutboundView::Broadcast {
                room: room@,
                text: text@,
                skip: match skip {
                    Some(s) => Some(s@),
                    None => None,
                },
                delay_ms: *delay_ms,
            },
            Outbound::Direct { id, text } => OutboundView::Direct { id: id@, text: text@ },
        }
    }
}

/// The views of a list of texts to deliver.
pub open spec fn outbound_views(s: Seq<Outbound>) -> Seq<OutboundView> {
    Seq::new(s.len(), |i: int| s[i]@)
}

#[derive(Debug)]
pub struct ChessServer {
    pub sessions: Vec<User>,
    pub rooms: Vec<RoomEntry>,
    pub visitor_count: u64,
}

/// No two rooms share a name.
pub open spec fn unique_names(s: Seq<RoomEntry>) -> bool {
    forall|i: int, j: int| 0 <= i < j < s.len() ==> s[i].name@ != s[j].name@
}

/// The names of a list of rooms.
pub open spec fn room_names(s: Seq<RoomEntry>) -> Seq<Seq<char>> {
    Seq::new(s.len(), |i: int| s[i].name@)
}

/// A room that has been empty since `t` has waited out `timeout` at `now`.
pub open spec fn waited_out(since: Option<u64>, now: u64, timeout: u64) -> bool {
    since matches Some(t) && t <= now && now - t >= timeout
}

/// The rooms of `s` that have not waited out `timeout` empty, in order.
pub open spec fn live_rooms(s: Seq<RoomEntry>, now: u64, timeout: u64) -> Seq<RoomEntry>
    decreases s.len(),
{
    if s.len() == 0 {
        Seq::empty()
    } else if waited_out(s.last().room.empty_at, now, timeout) {
        live_rooms(s.drop_last(), now, timeout)
    } else {
        live_rooms(s.drop_last(), now, timeout).push(s.last())
    }
}

/// The users of `s` that have not waited out `timeout` away, in order.
pub open spec fn staying_users(s: Seq<User>, now: u64, timeout: u64) -> Seq<User>
    decreases s.len(),
{
    if s.len() == 0 {
        Seq::empty()
    } else if waited_out(s.last().disconected_at, now, timeout) {
        staying_users(s.drop_last(), now, timeout)
    } else {
        staying_users(s.drop_last(), now, timeout).push(s.last())
    }
}

/// The users of `s` that have waited out `timeout` away, in order.
pub open spec fn leaving_users(s: Seq<User>, now: u64, timeout: u64) -> Seq<User>
    decreases s.len(),
{
    if s.len() == 0 {
        Seq::empty()
    } else if waited_out(s.last().disconected_at, now, timeout) {
        leaving_users(s.drop_last(), now, timeout).push(s.last())
    } else {
        leaving_users(s.drop_last(), now, timeout)
    }
}

/// `/remove_user <id:name:status>`.
pub open spec fn remove_user_text(u: User) -> Seq<char> {
    seq!['/', 'r', 'e', 'm', 'o', 'v', 'e', '_', 'u', 's', 'e', 'r', ' '] + user_text(u)
}

/// The announcement that `u` has left, to the rest of its room.
pub open spec fn removal_notice(u: User) -> OutboundView {
    OutboundView::Broadcast { room: u.current_room@, text: remove_user_text(u), skip: None, delay_ms: 0 }
}

pub proof fn lemma_live_rooms_from(s: Seq<RoomEntry>, now: u64, timeout: u64)
    ensures
        forall|i: int| 0 <= i < live_rooms(s, now, timeout).len() ==> !waited_out(
            (#[trigger] live_rooms(s, now, timeout)[i]).room.empty_at,
            now,
            timeout,
        ) && exists|j: int| 0 <= j < s.len() && s[j] == live_rooms(s, now, timeout)[i],
    decreases s.len(),
{
    if s.len() > 0 {
        lemma_live_rooms_from(s.drop_last(), now, timeout);
        let k = live_rooms(s.drop_last(), now, timeout);
        assert forall|i: int| 0 <= i < live_rooms(s, now, timeout).len() implies !waited_out(
            (#[trigger] live_rooms(s, now, timeout)[i]).room.empty_at,
            now,
            timeout,
        ) && exists|j: int| 0 <= j < s.len() && s[j] == live_rooms(s, now, timeout)[i] by {
            if i < k.len() {
                let j = choose|j: int| 0 <= j < s.drop_last().len() && s.drop_last()[j] == k[i];
                assert(s[j] == live_rooms(s, now, timeout)[i]);
            } else {
                assert(s[s.len() - 1] == live_rooms(s, now, timeout)[i]);
            }
        }
    }
}

pub proof fn lemma_staying_users_from(s: Seq<User>, now: u64, timeout: u64)
    ensures
        forall|i: int| 0 <= i < staying_users(s, now, timeout).len() ==> !waited_out(
            (#[trigger] staying_users(s, now, timeout)[i]).disconected_at,
            now,
            timeout,
        ) && exists|j: int| 0 <= j < s.len() && s[j] == staying_users(s, now, timeout)[i],
    decreases s.len(),
{
    if s.len() > 0 {
        lemma_staying_users_from(s.drop_last(), now, timeout);
        let k = staying_users(s.drop_last(), now, timeout);
        assert forall|i: int| 0 <= i < staying_users(s, now, timeout).len() implies !waited_out(
            (#[trigger] staying_users(s, now, timeout)[i]).disconected_at,
            now,
            timeout,
        ) && exists|j: int| 0 <= j < s.len() && s[j] == staying_users(s, now, timeout)[i] by {
            if i < k.len() {
                let j = choose|j: int| 0 <= j < s.drop_last().len() && s.drop_last()[j] == k[i];
                assert(s[j] == staying_users(s, now, timeout)[i]);
            } else {
                assert(s[s.len() - 1] == staying_users(s, now, timeout)[i]);
            }
        }
    }
}

pub proof fn lemma_leaving_users_cover(s: Seq<User>, now: u64, timeout: u64)
    ensures
        forall|j: int|
            0 <= j < s.len() && waited_out(s[j].disconected_at, now, timeout) ==> exists|i: int|
                0 <= i < leaving_users(s, now, timeout).len() && #[trigger] leaving_users(s, now, timeout)[i]
                    == s[j],
        forall|i: int|
            0 <= i < leaving_users(s, now, timeout).len() ==> exists|j: int|
                0 <= j < s.len() && s[j] == #[trigger] leaving_users(s, now, timeout)[i],
    decreases s.len(),
{
    if s.len() > 0 {
        lemma_leaving_users_cover(s.drop_last(), now, timeout);
        let k = leaving_users(s.drop_last(), now, timeout);
        let l = leaving_users(s, now, timeout);
        assert forall|j: int| 0 <= j < s.len() && waited_out(s[j].disconected_at, now, timeout) implies exists|i: int|
            0 <= i < l.len() && #[trigger] l[i] == s[j] by {
            if j < s.len() - 1 {
                assert(s.drop_last()[j] == s[j]);
                let i = choose|i: int| 0 <= i < k.len() && k[i] == s.drop_last()[j];
                assert(l[i] == s[j]);
            } else {
                assert(l[l.len() - 1] == s[j]);
            }
        }
        assert forall|i: int| 0 <= i < l.len() implies exists|j: int| 0 <= j < s.len() && s[j] == #[trigger] l[i] by {
            if i < k.len() {
                let j = choose|j: int| 0 <= j < s.drop_last().len() && s.drop_last()[j] == k[i];
                assert(s[j] == l[i]);
            } else {
                assert(s[s.len() - 1] == l[i]);
            }
        }
    }
}

proof fn lemma_live_rooms_snoc(s: Seq<RoomEntry>, j: int, now: u64, timeout: u64)
    requires
        0 <= j < s.len(),
    ensures
        live_rooms(s.subrange(0, j + 1), now, timeout) == if waited_out(s[j].room.empty_at, now, timeout) {
            live_rooms(s.subrange(0, j), now, timeout)
        } else {
            live_rooms(s.subrange(0, j), now, timeout).push(s[j])
        },
{
    assert(s.subrange(0, j + 1).drop_last() =~= s.subrange(0, j));
}

proof fn lemma_users_snoc(s: Seq<User>, j: int, now: u64, timeout: u64)
    requires
        0 <= j < s.len(),
    ensures
        staying_users(s.subrange(0, j + 1), now, timeout) == if waited_out(s[j].disconected_at, now, timeout) {
            staying_users(s.subrange(0, j), now, timeout)
        } else {
            staying_users(s.subrange(0, j), now, timeout).push(s[j])
        },
        leaving_users(s.subrange(0, j + 1), now, timeout) == if waited_out(s[j].disconected_at, now, timeout) {
            leaving_users(s.subrange(0, j), now, timeout).push(s[j])
        } else {
            leaving_users(s.subrange(0, j), now, timeout)
        },
{
    assert(s.subrange(0, j + 1).drop_last() =~= s.subrange(0, j));
}

fn waited_out_exec(since: Option<u64>, now: u64, timeout: u64) -> (r: bool)
    ensures
        r == waited_out(since, now, timeout),
{
    match since {
        Some(t) => t <= now && now - t >= timeout,
        None => false,
    }
}

/// Finds the room named `name`.
pub fn find_room(s: &Vec<RoomEntry>, name: &str) -> (r: Option<usize>)
    ensures
        r matches Some(i) ==> i < s@.len() && s@[i as int].name@ == name@,
        r is None ==> forall|j: int| 0 <= j < s@.len() ==> s@[j].name@ != name@,
{
    let mut i: usize = 0;
    while i < s.len()
        invariant
            i <= s@.len(),
            forall|j: int| 0 <= j < i ==> s@[j].name@ != name@,
        decreases s@.len() - i,
    {
        if same_text(s[i].name.as_str(), name) {
            return Some(i);
        }
        i = i + 1;
    }
    None
}

impl ChessServer {
    /// No two users share an id, no two rooms a name, and every room is
    /// well formed.
    pub open spec fn wf(&self) -> bool {
        &&& unique_ids(self.sessions@)
        &&& unique_names(self.rooms@)
        &&& forall|i: int| 0 <= i < self.rooms@.len() ==> (#[trigger] self.rooms@[i]).room.wf()
    }

    /// Drops the rooms that have been empty for `timeout` at `now`.
    fn drop_idle_rooms(&mut self, now: u64, timeout: u64)
        requires
            old(self).wf(),
        ensures
            final(self).wf(),
            final(self).rooms@ == live_rooms(old(self).rooms@, now, timeout),
            final(self).sessions == old(self).sessions,
            final(self).visitor_count == old(self).visitor_count,
    {
        let ghost orig = self.rooms@;
        let ghost n = orig.len();
        let mut i: usize = 0;
        let ghost mut j: int = 0;
        while i < self.rooms.len()
            invariant
                n == orig.len(),
                0 <= j <= n,
                i == live_rooms(orig.subrange(0, j), now, timeout).len(),
                self.rooms@ == live_rooms(orig.subrange(0, j), now, timeout) + orig.subrange(j, n as int),
                i < self.rooms@.len() ==> j < n,
                self.sessions == old(self).sessions,
                self.visitor_count == old(self).visitor_count,
                orig == old(self).rooms@,
            decreases n - j,
        {
            proof {
                if j >= n {
                    assert(orig.subrange(j, n as int).len() == 0);
                }
                assert(self.rooms@[i as int] == orig[j]);
                lemma_live_rooms_snoc(orig, j, now, timeout);
            }
            if waited_out_exec(self.rooms[i].room.empty_at, now, timeout) {
                self.rooms.remove(i);
                proof {
                    assert(self.rooms@ =~= live_rooms(orig.subrange(0, j + 1), now, timeout) + orig.subrange(
                        j + 1,
                        n as int,
                    ));
                }
            } else {
                proof {
                    assert(self.rooms@ =~= live_rooms(orig.subrange(0, j + 1), now, timeout) + orig.subrange(
                        j + 1,
                        n as int,
                    ));
                }
                i = i + 1;
            }
            proof {
                j = j + 1;
            }
        }
        proof {
            if j < n {
                assert(self.rooms@.len() > i);
            }
            assert(orig.subrange(0, n as int) =~= orig);
            assert(self.rooms@ =~= live_rooms(orig, now, timeout));
            lemma_live_rooms_from(orig, now, timeout);
            let k = self.rooms@;
            assert forall|a: int| 0 <= a < k.len() implies (#[trigger] k[a]).room.wf() by {
                let j = choose|j: int| 0 <= j < orig.len() && orig[j] == live_rooms(orig, now, timeout)[a];
                assert(orig[j].room.wf());
            }
            assert forall|a: int, b: int| 0 <= a < b < k.len() implies k[a].name@ != k[b].name@ by {
                lemma_live_rooms_order(orig, now, timeout, a, b);
            }
        }
    }
}

/// `/remove_user <id:name:status>`.
fn remove_user_message(u: &User) -> (r: String)
    ensures
        r@ == remove_user_text(*u),
{
    let mut s = string_of("/remove_user ");
    let t = u.to_string();
    push_all(&mut s, t.as_str());
    proof {
        reveal_strlit("/remove_user ");
        assert(s@ =~= remove_user_text(*u));
    }
    s
}

impl ChessServer {
    /// Takes the users that have been away for `timeout` at `now` out of
    /// the user list, handing them out in order.
    fn take_leaving_users(&mut self, now: u64, timeout: u64) -> (r: Vec<User>)
        requires
            old(self).wf(),
        ensures
            final(self).wf(),
            final(self).sessions@ == staying_users(old(self).sessions@, now, timeout),
            r@ == leaving_users(old(self).sessions@, now, timeout),
            final(self).rooms == old(self).rooms,
            final(self).visitor_count == old(self).visitor_count,
    {
        let ghost orig = self.sessions@;
        let ghost n = orig.len();
        let mut leaving: Vec<User> = Vec::new();
        let mut i: usize = 0;
        let ghost mut j: int = 0;
        while i < self.sessions.len()
            invariant
                n == orig.len(),
                0 <= j <= n,
                i == staying_users(orig.subrange(0, j), now, timeout).len(),
                self.sessions@ == staying_users(orig.subrange(0, j), now, timeout) + orig.subrange(j, n as int),
                leaving@ == leaving_users(orig.subrange(0, j), now, timeout),
                self.rooms == old(self).rooms,
                self.visitor_count == old(self).visitor_count,
                orig == old(self).sessions@,
            decreases n - j,
        {
            proof {
                if j >= n {
                    assert(orig.subrange(j, n as int).len() == 0);
                }
                assert(self.sessions@[i as int] == orig[j]);
                lemma_users_snoc(orig, j, now, timeout);
            }
            if waited_out_exec(self.sessions[i].disconected_at, now, timeout) {
                let u = self.sessions.remove(i);
                leaving.push(u);
                proof {
                    assert(self.sessions@ =~= staying_users(orig.subrange(0, j + 1), now, timeout)
                        + orig.subrange(j + 1, n as int));
                }
            } else {
                proof {
                    assert(self.sessions@ =~= staying_users(orig.subrange(0, j + 1), now, timeout)
                        + orig.subrange(j + 1, n as int));
                }
                i = i + 1;
            }
            proof {
                j = j + 1;
            }
        }
        proof {
            assert(orig.subrange(0, n as int) =~= orig);
            assert(self.sessions@ =~= staying_users(orig, now, timeout));
            let k = self.sessions@;
            assert forall|a: int, b: int| 0 <= a < b < k.len() implies k[a].id@ != k[b].id@ by {
                lemma_staying_users_order(orig, now, timeout, a, b);
            }
        }
        leaving
    }

    /// Takes user `id` out of room `room_name`; a room left empty is marked
    /// empty since `now`.
    fn detach(&mut self, id: &str, room_name: &str, now: u64)
        requires
            old(self).wf(),
        ensures
            final(self).wf(),
            room_names(final(self).rooms@) == room_names(old(self).rooms@),
            final(self).sessions == old(self).sessions,
            final(self).visitor_count == old(self).visitor_count,
            forall|i: int|
                0 <= i < final(self).rooms@.len() && final(self).rooms@[i].name@ == room_name@ ==> forall|j: int|
                    0 <= j < final(self).rooms@[i].room.sessions@.len() ==> (#[trigger] final(self).rooms@[i].room.sessions@[j]).id@
                        != id@,
            forall|i: int|
                0 <= i < final(self).rooms@.len() && final(self).rooms@[i].name@ != room_name@ ==> #[trigger] final(self).rooms@[i]
                    == old(self).rooms@[i],
            forall|i: int|
                0 <= i < final(self).rooms@.len() && final(self).rooms@[i].name@ == room_name@ ==> {
                    &&& (#[trigger] final(self).rooms@[i]).room.sessions@.len() == 0 ==> final(self).rooms@[i].room.empty_at
                        == Some(now)
                    &&& forall|j: int|
                        0 <= j < final(self).rooms@[i].room.sessions@.len() ==> old(self).rooms@[i].room.sessions@.contains(
                            #[trigger] final(self).rooms@[i].room.sessions@[j],
                        )
                },
    {
        match find_room(&self.rooms, room_name) {
            Some(i) => {
                let ghost before = self.rooms@;
                let mut entry = self.rooms.remove(i);
                let ghost s0 = entry.room.sessions@;
                entry.room.remove_session(id);
                if entry.room.sessions.len() == 0 {
                    entry.room.empty_at = Some(now);
                }
                proof {
                    let s1 = entry.room.sessions@;
                    crate::room::lemma_index_of_id(s0, id@, s0.len() as int);
                    assert forall|j: int| 0 <= j < s1.len() implies s0.contains(#[trigger] s1[j]) by {
                        match index_of_id(s0, id@, s0.len() as int) {
                            Some(x) => {
                                let j2 = if j < x { j } else { j + 1 };
                                assert(s0[j2] == s1[j]);
                            },
                            None => {
                                assert(s0[j] == s1[j]);
                            },
                        }
                    }
                }
                self.rooms.insert(i, entry);
                proof {
                    assert(room_names(self.rooms@) =~= room_names(before));
                    assert forall|a: int| 0 <= a < self.rooms@.len() implies (#[trigger] self.rooms@[a]).room.wf() by {
                        if a != i {
                            assert(self.rooms@[a] == before[a]);
                        }
                    }
                    assert forall|a: int, b: int| 0 <= a < b < self.rooms@.len() implies self.rooms@[a].name@
                        != self.rooms@[b].name@ by {
                        assert(room_names(self.rooms@)[a] == room_names(before)[a]);
                        assert(room_names(self.rooms@)[b] == room_names(before)[b]);
                    }
                    assert forall|a: int| 0 <= a < self.rooms@.len() && self.rooms@[a].name@ == room_name@ implies a == i by {
                        assert(room_names(self.rooms@)[a] == room_names(before)[a]);
                    }
                    assert forall|a: int| 0 <= a < self.rooms@.len() && self.rooms@[a].name@ != room_name@ implies #[trigger] self.rooms@[a]
                        == before[a] by {
                        if a == i {
                            assert(self.rooms@[a].name@ == before[a].name@);
                        }
                    }
                }
            },
            None => {},
        }
    }

    /// The periodic sweep: drops the rooms that have been empty for
    /// `room_timeout` and the users that have been away for
    /// `user_timeout`, announcing each user that leaves to its room once.
    pub fn sweep(&mut self, now: u64, room_timeout: u64, user_timeout: u64) -> (out: Vec<Outbound>)
        requires
            old(self).wf(),
        ensures
            final(self).wf(),
            swept(*old(self), *final(self), outbound_views(out@), now, room_timeout, user_timeout),
    {
        self.drop_idle_rooms(now, room_timeout);
        let ghost kept_names = room_names(self.rooms@);
        let leaving = self.take_leaving_users(now, user_timeout);
        let mut out: Vec<Outbound> = Vec::new();
        let mut k: usize = 0;
        while k < leaving.len()
            invariant
                self.wf(),
                k <= leaving@.len(),
                room_names(self.rooms@) == kept_names,
                self.sessions@ == staying_users(old(self).sessions@, now, user_timeout),
                leaving@ == leaving_users(old(self).sessions@, now, user_timeout),
                out@.len() == k,
                forall|i: int| 0 <= i < k ==> (#[trigger] out@[i])@ == removal_notice(leaving@[i]),
                self.rooms@.len() == kept_names.len(),
                forall|l: int, i: int, j: int|
                    0 <= l < k && 0 <= i < self.rooms@.len() && self.rooms@[i].name@ == leaving@[l].current_room@
                        && 0 <= j < self.rooms@[i].room.sessions@.len() ==> (#[trigger] self.rooms@[i].room.sessions@[j]).id@
                        != (#[trigger] leaving@[l]).id@,
                forall|l: int, i: int|
                    0 <= l < k && 0 <= i < self.rooms@.len() && (#[trigger] self.rooms@[i]).name@ == (#[trigger] leaving@[l]).current_room@
                        && self.rooms@[i].room.sessions@.len() == 0 ==> self.rooms@[i].room.empty_at == Some(now),
            decreases leaving@.len() - k,
        {
            let u = &leaving[k];
            let ghost before = self.rooms@;
            self.detach(u.id.as_str(), u.current_room.as_str(), now);
            proof {
                assert(room_names(self.rooms@).len() == room_names(before).len());
                assert forall|l: int, i: int, j: int|
                    0 <= l < k + 1 && 0 <= i < self.rooms@.len() && self.rooms@[i].name@ == leaving@[l].current_room@
                        && 0 <= j < self.rooms@[i].room.sessions@.len() implies (#[trigger] self.rooms@[i].room.sessions@[j]).id@
                        != (#[trigger] leaving@[l]).id@ by {
                    if l < k {
                        if self.rooms@[i].name@ != u.current_room@ {
                            assert(self.rooms@[i] == before[i]);
                        } else {
                            assert(room_names(self.rooms@)[i] == room_names(before)[i]);
                            assert(before[i].name@ == leaving@[l].current_room@);
                            assert(before[i].room.sessions@.contains(self.rooms@[i].room.sessions@[j]));
                            let j2 = choose|j2: int| 0 <= j2 < before[i].room.sessions@.len() && before[i].room.sessions@[j2]
                                == self.rooms@[i].room.sessions@[j];
                            assert(before[i].room.sessions@[j2].id@ != leaving@[l].id@);
                        }
                    }
                }
                assert forall|l: int, i: int|
                    0 <= l < k + 1 && 0 <= i < self.rooms@.len() && (#[trigger] self.rooms@[i]).name@ == (#[trigger] leaving@[l]).current_room@
                        && self.rooms@[i].room.sessions@.len() == 0 implies self.rooms@[i].room.empty_at == Some(now) by {
                    if self.rooms@[i].name@ != u.current_room@ {
                        assert(self.rooms@[i] == before[i]);
                    }
                }
            }
            let text = remove_user_message(u);
            out.push(Outbound::Broadcast { room: copy_string(&u.current_room), text, skip: None, delay_ms: 0 });
            k = k + 1;
        }
        proof {
            assert(outbound_views(out@) =~= Seq::new(
                leaving_users(old(self).sessions@, now, user_timeout).len(),
                |i: int| removal_notice(leaving_users(old(self).sessions@, now, user_timeout)[i]),
            ));
        }
        out
    }
}

/// What the sweep does: the rooms left are those that had not waited out
/// `room_timeout` empty, the users left those that had not waited out
/// `user_timeout` away, each user that leaves is out of its room (a room
/// it leaves empty is empty since `now`), and each is announced once, in
/// order.
pub open spec fn swept(
    s0: ChessServer,
    s1: ChessServer,
    out: Seq<OutboundView>,
    now: u64,
    room_timeout: u64,
    user_timeout: u64,
) -> bool {
    &&& room_names(s1.rooms@) == room_names(live_rooms(s0.rooms@, now, room_timeout))
    &&& s1.sessions@ == staying_users(s0.sessions@, now, user_timeout)
    &&& forall|l: int, i: int, j: int|
        0 <= l < leaving_users(s0.sessions@, now, user_timeout).len() && 0 <= i < s1.rooms@.len()
            && s1.rooms@[i].name@ == leaving_users(s0.sessions@, now, user_timeout)[l].current_room@ && 0 <= j
            < s1.rooms@[i].room.sessions@.len() ==> (#[trigger] s1.rooms@[i].room.sessions@[j]).id@
            != (#[trigger] leaving_users(s0.sessions@, now, user_timeout)[l]).id@
    &&& forall|l: int, i: int|
        0 <= l < leaving_users(s0.sessions@, now, user_timeout).len() && 0 <= i < s1.rooms@.len()
            && (#[trigger] s1.rooms@[i]).name@ == (#[trigger] leaving_users(s0.sessions@, now, user_timeout)[l]).current_room@
            && s1.rooms@[i].room.sessions@.len() == 0 ==> s1.rooms@[i].room.empty_at == Some(now)
    &&& out == Seq::new(
        leaving_users(s0.sessions@, now, user_timeout).len(),
        |i: int| removal_notice(leaving_users(s0.sessions@, now, user_timeout)[i]),
    )
}

/// After a sweep, a room that had been empty for `room_timeout` is gone; a
/// user that had been away for `user_timeout` is gone, and exactly one
/// announcement of its leaving went out.
pub proof fn lemma_sweep_evicts(
    s0: ChessServer,
    s1: ChessServer,
    out: Seq<OutboundView>,
    now: u64,
    room_timeout: u64,
    user_timeout: u64,
)
    requires
        s0.wf(),
        swept(s0, s1, out, now, room_timeout, user_timeout),
    ensures
        forall|j: int|
            0 <= j < s0.rooms@.len() && waited_out(s0.rooms@[j].room.empty_at, now, room_timeout)
                ==> !room_names(s1.rooms@).contains(#[trigger] s0.rooms@[j].name@),
        forall|j: int|
            0 <= j < s0.sessions@.len() && waited_out(s0.sessions@[j].disconected_at, now, user_timeout)
                ==> (forall|k: int| 0 <= k < s1.sessions@.len() ==> s1.sessions@[k].id@ != (#[trigger] s0.sessions@[j]).id@),
        forall|j: int|
            0 <= j < s0.sessions@.len() && waited_out(s0.sessions@[j].disconected_at, now, user_timeout)
                ==> exists|i: int| 0 <= i < out.len() && out[i] == removal_notice(#[trigger] s0.sessions@[j])
                && leaving_users(s0.sessions@, now, user_timeout)[i] == s0.sessions@[j] && forall|i2: int|
                0 <= i2 < out.len() && leaving_users(s0.sessions@, now, user_timeout)[i2].id@ == s0.sessions@[j].id@
                ==> i2 == i,
{
    let live = live_rooms(s0.rooms@, now, room_timeout);
    lemma_live_rooms_from(s0.rooms@, now, room_timeout);
    assert forall|j: int|
        0 <= j < s0.rooms@.len() && waited_out(s0.rooms@[j].room.empty_at, now, room_timeout)
            implies !room_names(s1.rooms@).contains(#[trigger] s0.rooms@[j].name@) by {
        if room_names(s1.rooms@).contains(s0.rooms@[j].name@) {
            let i = choose|i: int| 0 <= i < room_names(s1.rooms@).len() && room_names(s1.rooms@)[i]
                == s0.rooms@[j].name@;
            assert(room_names(live)[i] == live[i].name@);
            let j2 = choose|j2: int| 0 <= j2 < s0.rooms@.len() && s0.rooms@[j2] == live[i];
            assert(j2 == j);
        }
    }
    let stay = staying_users(s0.sessions@, now, user_timeout);
    let leave = leaving_users(s0.sessions@, now, user_timeout);
    lemma_staying_users_from(s0.sessions@, now, user_timeout);
    lemma_leaving_users_cover(s0.sessions@, now, user_timeout);
    assert forall|j: int|
        0 <= j < s0.sessions@.len() && waited_out(s0.sessions@[j].disconected_at, now, user_timeout)
            implies (forall|k: int| 0 <= k < s1.sessions@.len() ==> s1.sessions@[k].id@ != (#[trigger] s0.sessions@[j]).id@) by {
        assert forall|k: int| 0 <= k < s1.sessions@.len() implies s1.sessions@[k].id@ != s0.sessions@[j].id@ by {
            assert(stay[k] == s1.sessions@[k]);
            let j2 = choose|j2: int| 0 <= j2 < s0.sessions@.len() && s0.sessions@[j2] == stay[k];
            if s1.sessions@[k].id@ == s0.sessions@[j].id@ {
                assert(j2 == j);
            }
        }
    }
    assert forall|j: int|
        0 <= j < s0.sessions@.len() && waited_out(s0.sessions@[j].disconected_at, now, user_timeout)
            implies exists|i: int| 0 <= i < out.len() && out[i] == removal_notice(#[trigger] s0.sessions@[j])
            && leave[i] == s0.sessions@[j] && forall|i2: int|
            0 <= i2 < out.len() && leave[i2].id@ == s0.sessions@[j].id@ ==> i2 == i by {
        let i = choose|i: int| 0 <= i < leave.len() && #[trigger] leave[i] == s0.sessions@[j];
        assert(out[i] == removal_notice(leave[i]));
        assert forall|i2: int| 0 <= i2 < out.len() && leave[i2].id@ == s0.sessions@[j].id@ implies i2 == i by {
            if i2 != i {
                lemma_leaving_users_distinct(s0.sessions@, now, user_timeout, i, i2);
            }
        }
    }
}

/// The users that leave have distinct ids.
proof fn lemma_leaving_users_distinct(s: Seq<User>, now: u64, timeout: u64, a: int, b: int)
    requires
        unique_ids(s),
        0 <= a < leaving_users(s, now, timeout).len(),
        0 <= b < leaving_users(s, now, timeout).len(),
        a != b,
    ensures
        leaving_users(s, now, timeout)[a].id@ != leaving_users(s, now, timeout)[b].id@,
    decreases s.len(),
{
    assert(s.len() > 0);
    let k = leaving_users(s.drop_last(), now, timeout);
    assert(unique_ids(s.drop_last()));
    lemma_leaving_users_cover(s.drop_last(), now, timeout);
    if a < k.len() && b < k.len() {
        lemma_leaving_users_distinct(s.drop_last(), now, timeout, a, b);
    } else {
        let (lo, hi) = if a < b { (a, b) } else { (b, a) };
        assert(lo < k.len());
        assert(k[lo] == leaving_users(s, now, timeout)[lo]);
        assert(exists|j: int| 0 <= j < s.drop_last().len() && s.drop_last()[j] == #[trigger] k[lo]);
        let j = choose|j: int| 0 <= j < s.drop_last().len() && s.drop_last()[j] == k[lo];
        assert(s.drop_last()[j] == s[j]);
        assert(leaving_users(s, now, timeout)[hi] == s[s.len() - 1]);
    }
}

/// The users that stay keep distinct ids.
proof fn lemma_staying_users_order(s: Seq<User>, now: u64, timeout: u64, a: int, b: int)
    requires
        unique_ids(s),
        0 <= a < b < staying_users(s, now, timeout).len(),
    ensures
        staying_users(s, now, timeout)[a].id@ != staying_users(s, now, timeout)[b].id@,
    decreases s.len(),
{
    assert(s.len() > 0);
    let k = staying_users(s.drop_last(), now, timeout);
    assert(unique_ids(s.drop_last()));
    if b < k.len() {
        lemma_staying_users_order(s.drop_last(), now, timeout, a, b);
    } else {
        lemma_staying_users_from(s.drop_last(), now, timeout);
        assert(k[a] == staying_users(s, now, timeout)[a]);
        assert(exists|j: int| 0 <= j < s.drop_last().len() && s.drop_last()[j] == k[a]);
        let j = choose|j: int| 0 <= j < s.drop_last().len() && s.drop_last()[j] == k[a];
        assert(s.drop_last()[j] == s[j]);
        assert(staying_users(s, now, timeout)[b] == s[s.len() - 1]);
    }
}

/// The rooms that stay are an ordered pick of the rooms there were.
proof fn lemma_live_rooms_order(s: Seq<RoomEntry>, now: u64, timeout: u64, a: int, b: int)
    requires
        unique_names(s),
        0 <= a < b < live_rooms(s, now, timeout).len(),
    ensures
        live_rooms(s, now, timeout)[a].name@ != live_rooms(s, now, timeout)[b].name@,
    decreases s.len(),
{
    assert(s.len() > 0);
    let k = live_rooms(s.drop_last(), now, timeout);
    assert(unique_names(s.drop_last()));
    if b < k.len() {
        lemma_live_rooms_order(s.drop_last(), now, timeout, a, b);
    } else {
        lemma_live_rooms_from(s.drop_last(), now, timeout);
        assert(k[a] == live_rooms(s, now, timeout)[a]);
        assert(exists|j: int| 0 <= j < s.drop_last().len() && s.drop_last()[j] == k[a]);
        let j = choose|j: int| 0 <= j < s.drop_last().len() && s.drop_last()[j] == k[a];
        assert(s.drop_last()[j] == s[j]);
        assert(live_rooms(s, now, timeout)[b] == s[s.len() - 1]);
    }
}

/// The name of the room that every user starts in.
pub const MAIN_ROOM: &'static str = "main";

/// The ids of the users of `s` but `skip`, in order.
pub open spec fn recipient_ids(s: Seq<User>, skip: Option<Seq<char>>) -> Seq<Seq<char>>
    decreases s.len(),
{
    if s.len() == 0 {
        Seq::empty()
    } else if skip == Some(s.last().id@) {
        recipient_ids(s.drop_last(), skip)
    } else {
        recipient_ids(s.drop_last(), skip).push(s.last().id@)
    }
}

/// Putting back a room under the same name keeps the coordinator well
/// formed.
proof fn lemma_put_back(before: Seq<RoomEntry>, after: Seq<RoomEntry>, i: int)
    requires
        0 <= i < before.len(),
        after.len() == before.len(),
        forall|j: int| 0 <= j < before.len() && j != i ==> after[j] == before[j],
        after[i].name@ == before[i].name@,
        after[i].room.wf(),
        unique_names(before),
        forall|j: int| 0 <= j < before.len() ==> (#[trigger] before[j]).room.wf(),
    ensures
        unique_names(after),
        forall|j: int| 0 <= j < after.len() ==> (#[trigger] after[j]).room.wf(),
        room_names(after) == room_names(before),
{
    assert(room_names(after) =~= room_names(before));
    assert forall|a: int, b: int| 0 <= a < b < after.len() implies after[a].name@ != after[b].name@ by {
        assert(room_names(after)[a] == room_names(before)[a]);
        assert(room_names(after)[b] == room_names(before)[b]);
    }
    assert forall|j: int| 0 <= j < after.len() implies (#[trigger] after[j]).room.wf() by {
        if j != i {
            assert(after[j] == before[j]);
        }
    }
}

/// A message to one user.
fn direct(id: &str, text: String) -> (r: Outbound)
    ensures
        r@ == (OutboundView::Direct { id: id@, text: text@ }),
{
    Outbound::Direct { id: string_of(id), text }
}

/// A message to a room.
fn broadcast(room: &str, text: String, skip: Option<&str>, delay_ms: u64) -> (r: Outbound)
    ensures
        r@ == (OutboundView::Broadcast {
            room: room@,
            text: text@,
            skip: match skip {
                Some(s) => Some(s@),
                None => None,
            },
            delay_ms,
        }),
{
    Outbound::Broadcast {
        room: string_of(room),
        text,
        skip: match skip {
            Some(s) => Some(string_of(s)),
            None => None,
        },
        delay_ms,
    }
}

/// The text that follows a move for the stone it also moved: the pawn
/// taken en passant goes to the trash, the rook of a castling moves.
/// `turn` is the side to move after the move.
pub open spec fn follow_up_text(mv: Move, turn: Turn, to: Position) -> Option<Seq<char>> {
    match mv {
        Move::Passant => {
            let (tag, y) = match turn {
                Turn::White => (seq!['l', 'p'], to.y - 1),
                Turn::Black => (seq!['d', 'p'], to.y + 1),
            };
            if 0 <= y < 8 && to.valid() {
                Some(
                    move_text(
                        tag,
                        square_name(Position { x: to.x, y: y as usize }),
                        seq!['d', 'e', 'l', 'e', 't', 'e', 'd'],
                    ),
                )
            } else {
                None
            }
        },
        Move::Castle(side) => {
            let (rook_from, rook_to) = match side {
                CastlePosition::KingSide => (7usize, 5usize),
                CastlePosition::QueenSide => (0usize, 3usize),
            };
            let (tag, row) = match turn {
                Turn::White => (seq!['d', 'r'], 0usize),
                Turn::Black => (seq!['l', 'r'], 7usize),
            };
            Some(
                move_text(
                    tag,
                    square_name(Position { x: rook_from, y: row }),
                    square_name(Position { x: rook_to, y: row }),
                ),
            )
        },
        _ => None,
    }
}

fn follow_up_message(mv: Move, turn: Turn, to: Position) -> (r: Option<String>)
    ensures
        match r {
            Some(t) => follow_up_text(mv, turn, to) == Some(t@),
            None => follow_up_text(mv, turn, to) is None,
        },
{
    match mv {
        Move::Passant => {
            if !(to.x < 8 && to.y < 8) {
                return None;
            }
            let (tag, y): (&str, usize) = match turn {
                Turn::White => {
                    if to.y == 0 {
                        return None;
                    }
                    ("lp", to.y - 1)
                },
                Turn::Black => {
                    if to.y >= 7 {
                        return None;
                    }
                    ("dp", to.y + 1)
                },
            };
            let square = Position::new(to.x, y).to_string();
            let t = crate::room::move_message(tag, square.as_str(), "deleted");
            proof {
                reveal_strlit("lp");
                reveal_strlit("dp");
                reveal_strlit("deleted");
            }
            Some(t)
        },
        Move::Castle(side) => {
            let (rook_from, rook_to): (usize, usize) = match side {
                CastlePosition::KingSide => (7, 5),
                CastlePosition::QueenSide => (0, 3),
            };
            let (tag, row): (&str, usize) = match turn {
                Turn::White => ("dr", 0),
                Turn::Black => ("lr", 7),
            };
            let a = Position::new(rook_from, row).to_string();
            let b = Position::new(rook_to, row).to_string();
            let t = crate::room::move_message(tag, a.as_str(), b.as_str());
            proof {
                reveal_strlit("lr");
                reveal_strlit("dr");
            }
            Some(t)
        },
        _ => None,
    }
}

impl ChessServer {
    /// A coordinator with the default room `main`, empty since `now`.
    pub fn new(now: u64) -> (r: ChessServer)
        ensures
            r.wf(),
            r.sessions@.len() == 0,
            r.visitor_count == 0,
    {
        let mut rooms: Vec<RoomEntry> = Vec::new();
        match Room::new(None, None, now) {
            Ok(room) => rooms.push(RoomEntry { name: string_of(MAIN_ROOM), room }),
            Err(_) => {},
        }
        ChessServer { sessions: Vec::new(), rooms, visitor_count: 0 }
    }

    /// The ids of the users of room `room` but `skip`: those a broadcast to
    /// the room reaches.
    pub fn recipients(&self, room: &str, skip: Option<&str>) -> (r: Vec<String>)
        requires
            self.wf(),
        ensures
            match find_room_spec(self.rooms@, room@) {
                Some(i) => Seq::new(r@.len(), |j: int| r@[j]@) == recipient_ids(
                    self.rooms@[i].room.sessions@,
                    match skip {
                        Some(s) => Some(s@),
                        None => None,
                    },
                ),
                None => r@.len() == 0,
            },
    {
        let mut r: Vec<String> = Vec::new();
        match find_room(&self.rooms, room) {
            Some(i) => {
                proof {
                    lemma_find_room_spec(self.rooms@, room@, i as int);
                }
                let ghost skip_v = match skip {
                    Some(s) => Some(s@),
                    None => None,
                };
                let members = &self.rooms[i].room.sessions;
                let mut k: usize = 0;
                while k < members.len()
                    invariant
                        k <= members@.len(),
                        Seq::new(r@.len(), |j: int| r@[j]@) == recipient_ids(members@.subrange(0, k as int), skip_v),
                        skip_v == match skip {
                            Some(s) => Some(s@),
                            None => None,
                        },
                    decreases members@.len() - k,
                {
                    let ghost before = Seq::new(r@.len(), |j: int| r@[j]@);
                    let skipped = match skip {
                        Some(s) => same_text(members[k].id.as_str(), s),
                        None => false,
                    };
                    if !skipped {
                        r.push(copy_string(&members[k].id));
                    }
                    proof {
                        assert(members@.subrange(0, k + 1).drop_last() =~= members@.subrange(0, k as int));
                        assert(Seq::new(r@.len(), |j: int| r@[j]@) =~= recipient_ids(
                            members@.subrange(0, k + 1),
                            skip_v,
                        ));
                    }
                    k = k + 1;
                }
                proof {
                    assert(members@.subrange(0, members@.len() as int) =~= members@);
                }
            },
            None => {
                proof {
                    lemma_find_room_none(self.rooms@, room@);
                }
            },
        }
        r
    }
}

/// The index of the room named `name`, if there is one.
pub open spec fn find_room_spec(s: Seq<RoomEntry>, name: Seq<char>) -> Option<int>
    decreases s.len(),
{
    if s.len() == 0 {
        None
    } else if s.last().name@ == name {
        Some(s.len() - 1)
    } else {
        find_room_spec(s.drop_last(), name)
    }
}

proof fn lemma_find_room_spec(s: Seq<RoomEntry>, name: Seq<char>, i: int)
    requires
        unique_names(s),
        0 <= i < s.len(),
        s[i].name@ == name,
    ensures
        find_room_spec(s, name) == Some(i),
    decreases s.len(),
{
    if i < s.len() - 1 {
        assert(s.last().name@ != name);
        lemma_find_room_spec(s.drop_last(), name, i);
    }
}

proof fn lemma_find_room_spec_some(s: Seq<RoomEntry>, name: Seq<char>)
    requires
        find_room_spec(s, name) is Some,
    ensures
        exists|j: int| 0 <= j < s.len() && s[j].name@ == name,
    decreases s.len(),
{
    if s.last().name@ != name {
        lemma_find_room_spec_some(s.drop_last(), name);
        let j = choose|j: int| 0 <= j < s.drop_last().len() && s.drop_last()[j].name@ == name;
        assert(s[j] == s.drop_last()[j]);
    }
}

proof fn lemma_find_room_none(s: Seq<RoomEntry>, name: Seq<char>)
    requires
        forall|j: int| 0 <= j < s.len() ==> s[j].name@ != name,
    ensures
        find_room_spec(s, name) is None,
    decreases s.len(),
{
    if s.len() > 0 {
        lemma_find_room_none(s.drop_last(), name);
    }
}

/// What brings user `id` up to date with room `e`: the board, the users
/// and the options.
pub open spec fn sync_views(e: RoomEntry, id: Seq<char>) -> Seq<OutboundView> {
    seq![
        OutboundView::Direct { id, text: sync_board_text(e.name@, e.room.current_fen@, e.room.trash@) },
        OutboundView::Direct {
            id,
            text: crate::messages::sync_users_text(
                e.name@,
                Seq::new(e.room.sessions@.len(), |j: int| user_text(e.room.sessions@[j])),
            ),
        },
        OutboundView::Direct {
            id,
            text: crate::messages::sync_options_text(
                crate::room::options_text(e.room.chess_board.validation, e.room.chess_board.sync),
            ),
        },
    ]
}

/// The FEN a new room is seeded from.
pub open spec fn seed_fen(fen: Option<String>) -> Seq<char> {
    match fen {
        Some(f) => f@,
        None => crate::room::DEFAULT_FEN@,
    }
}

/// The captured stones a new room is seeded with.
pub open spec fn seed_trash(trash: Option<String>) -> Seq<char> {
    match trash {
        Some(t) => t@,
        None => Seq::<char>::empty(),
    }
}

/// The names of the rooms of `s` that hold user `id`, in order.
pub open spec fn rooms_holding(s: Seq<RoomEntry>, id: Seq<char>) -> Seq<Seq<char>>
    decreases s.len(),
{
    if s.len() == 0 {
        Seq::empty()
    } else if index_of_id(s.last().room.sessions@, id, s.last().room.sessions@.len() as int) is Some {
        rooms_holding(s.drop_last(), id).push(s.last().name@)
    } else {
        rooms_holding(s.drop_last(), id)
    }
}

/// The notice to room `room` that `u` has left it.
pub open spec fn removal_view(room: Seq<char>, u: User) -> OutboundView {
    OutboundView::Broadcast {
        room,
        text: command_text("/remove_user"@, user_text(u)),
        skip: None,
        delay_ms: 0,
    }
}

/// What a join of user `u` (id `id`) into room `e` sends: each room it
/// left hears of it, the user hears the state of `e` and that it joined,
/// and the rest of `e` hears of the user.
pub open spec fn join_messages(left: Seq<Seq<char>>, u: User, id: Seq<char>, e: RoomEntry) -> Seq<OutboundView> {
    Seq::new(left.len(), |j: int| removal_view(left[j], u)) + sync_views(e, id) + seq![
        OutboundView::Direct { id, text: "/notify success Joined room "@ + e.name@ },
        OutboundView::Broadcast {
            room: e.name@,
            text: command_text("/add_user"@, user_text(u)),
            skip: Some(id),
            delay_ms: 0,
        },
    ]
}

/// The result that `move_piece` gives on board `b`.
pub open spec fn move_result(b: ChessBoard, piece: Seq<char>, from: Seq<char>, to: Seq<char>) -> Result<Move, ChessBoardError> {
    match move_outcome(b, piece, parse_square(from), parse_square(to)) {
        Ok(pl) => Ok(pl.mv),
        Err(e) => Err(e),
    }
}

pub open spec fn checkmate_text() -> Seq<char> {
    seq!['/', 'c', 'h', 'e', 'c', 'k', 'm', 'a', 't', 'e']
}

/// What the room of a move hears after it: the move, from everyone but
/// the mover; the follow-up of an en-passant capture or a castling, or,
/// after a promotion, the whole board a moment later; `/checkmate` when
/// the side to move is mated.
pub open spec fn move_messages(
    room: Seq<char>,
    id: Seq<char>,
    piece: Seq<char>,
    from: Seq<char>,
    to: Seq<char>,
    b: ChessBoard,
    mv: Move,
) -> Seq<OutboundView> {
    let first = seq![
        OutboundView::Broadcast {
            room,
            text: move_text(piece, from, to),
            skip: Some(id),
            delay_ms: 0,
        },
    ];
    let second = match mv {
        Move::Promotion(_) => seq![
            OutboundView::Broadcast {
                room,
                text: sync_board_text(room, b.fen@, trash_text(b.deleted_stones@)),
                skip: None,
                delay_ms: 200,
            },
        ],
        _ => match parse_square(to) {
            Some(p) => match follow_up_text(mv, b.turn, p) {
                Some(t) => seq![OutboundView::Broadcast { room, text: t, skip: None, delay_ms: 0 }],
                None => Seq::empty(),
            },
            None => Seq::empty(),
        },
    };
    let third = if checkmate(b.scene()) {
        seq![OutboundView::Broadcast { room, text: checkmate_text(), skip: None, delay_ms: 0 }]
    } else {
        Seq::empty()
    };
    first + second + third
}

impl ChessServer {
    /// Replaces user `ui` with `u`, which has the same id.
    fn replace_user(&mut self, ui: usize, u: User)
        requires
            old(self).wf(),
            ui < old(self).sessions@.len(),
            u.id@ == old(self).sessions@[ui as int].id@,
        ensures
            final(self).wf(),
            final(self).sessions@ == old(self).sessions@.update(ui as int, u),
            final(self).rooms == old(self).rooms,
            final(self).visitor_count == old(self).visitor_count,
    {
        let ghost before = self.sessions@;
        self.sessions.set(ui, u);
        proof {
            assert forall|a: int, b: int| 0 <= a < b < self.sessions@.len() implies self.sessions@[a].id@
                != self.sessions@[b].id@ by {
                assert(self.sessions@[a].id@ == before[a].id@);
                assert(self.sessions@[b].id@ == before[b].id@);
            }
        }
    }

    /// The three texts that bring user `id` up to date with room `ri`:
    /// the board, the users and the options.
    fn sync_messages(&self, id: &str, ri: usize) -> (r: Vec<Outbound>)
        requires
            self.wf(),
            ri < self.rooms@.len(),
        ensures
            outbound_views(r@) == sync_views(self.rooms@[ri as int], id@),
    {
        let e = &self.rooms[ri];
        let mut r: Vec<Outbound> = Vec::new();
        r.push(direct(id, sync_board_message(e.name.as_str(), e.room.current_fen.as_str(), e.room.trash.as_str())));
        let users = e.room.usernames();
        r.push(direct(id, sync_users_message(e.name.as_str(), &users)));
        let options = e.room.options_string();
        r.push(direct(id, sync_options_message(options.as_str())));
        proof {
            assert(Seq::new(users@.len(), |j: int| users@[j]@) =~= Seq::new(
                e.room.sessions@.len(),
                |j: int| user_text(e.room.sessions@[j]),
            ));
            assert(outbound_views(r@) =~= sync_views(*e, id@));
        }
        r
    }

    /// A move sent by user `id`: it is played on the board of the user's
    /// room. A refused move changes nothing and only the mover hears the
    /// board again; a played move is recorded and announced.
    pub fn play_move(&mut self, id: &str, piece: &str, from: &str, to: &str) -> (out: Vec<Outbound>)
        requires
            old(self).wf(),
        ensures
            final(self).wf(),
            final(self).sessions == old(self).sessions,
            match index_of_id(old(self).sessions@, id@, old(self).sessions@.len() as int) {
                None => out@.len() == 0 && *final(self) == *old(self),
                Some(ui) => match find_room_spec(old(self).rooms@, old(self).sessions@[ui].current_room@) {
                    None => out@.len() == 0 && *final(self) == *old(self),
                    Some(ri) => {
                        let e0 = old(self).rooms@[ri];
                        let e1 = final(self).rooms@[ri];
                        let res = move_result(e0.room.chess_board, piece@, from@, to@);
                        &&& played(e0.room, e1.room, piece@, from@, to@, res)
                        &&& e1.name == e0.name
                        &&& final(self).rooms@.len() == old(self).rooms@.len()
                        &&& forall|j: int| 0 <= j < old(self).rooms@.len() && j != ri ==> #[trigger] final(self).rooms@[j] == old(self).rooms@[j]
                        &&& match res {
                            Err(_) => outbound_views(out@) == seq![
                                OutboundView::Direct {
                                    id: id@,
                                    text: sync_board_text(
                                        e0.name@,
                                        e0.room.chess_board.fen@,
                                        trash_text(e0.room.chess_board.deleted_stones@),
                                    ),
                                },
                            ],
                            Ok(mv) => outbound_views(out@) == move_messages(
                                e0.name@,
                                id@,
                                piece@,
                                from@,
                                to@,
                                e1.room.chess_board,
                                mv,
                            ),
                        }
                    },
                },
            },
    {
        let mut out: Vec<Outbound> = Vec::new();
        let ui = match find_user(&self.sessions, id) {
            Some(ui) => ui,
            None => {
                return out;
            },
        };
        let ri = match find_room(&self.rooms, self.sessions[ui].current_room.as_str()) {
            Some(ri) => ri,
            None => {
                proof {
                    lemma_find_room_none(self.rooms@, self.sessions@[ui as int].current_room@);
                }
                return out;
            },
        };
        proof {
            lemma_find_room_spec(self.rooms@, self.sessions@[ui as int].current_room@, ri as int);
        }
        let ghost before = self.rooms@;
        let mut entry = self.rooms.remove(ri);
        let previous = sync_board_message(
            entry.name.as_str(),
            entry.room.chess_board.fen.as_str(),
            entry.room.chess_board.trash_string().as_str(),
        );
        let result = entry.room.play(piece, from, to);
        match result {
            Err(_) => {
                out.push(direct(id, previous));
            },
            Ok(mv) => {
                let board = &entry.room.chess_board;
                let ghost rn = entry.name@;
                let ghost first = seq![
                    OutboundView::Broadcast {
                        room: rn,
                        text: move_text(piece@, from@, to@),
                        skip: Some(id@),
                        delay_ms: 0,
                    },
                ];
                let ghost second = match mv {
                    Move::Promotion(_) => seq![
                        OutboundView::Broadcast {
                            room: rn,
                            text: sync_board_text(rn, board.fen@, trash_text(board.deleted_stones@)),
                            skip: None,
                            delay_ms: 200,
                        },
                    ],
                    _ => match parse_square(to@) {
                        Some(p) => match follow_up_text(mv, board.turn, p) {
                            Some(t) => seq![OutboundView::Broadcast { room: rn, text: t, skip: None, delay_ms: 0 }],
                            None => Seq::empty(),
                        },
                        None => Seq::empty(),
                    },
                };
                out.push(broadcast(entry.name.as_str(), crate::room::move_message(piece, from, to), Some(id), 0));
                proof {
                    assert(outbound_views(out@) =~= first);
                }
                match mv {
                    Move::Promotion(_) => {
                        let t = sync_board_message(entry.name.as_str(), board.fen.as_str(), board.trash_string().as_str());
                        out.push(broadcast(entry.name.as_str(), t, None, 200));
                    },
                    _ => match square_or_trash(to) {
                        Some(p) => match follow_up_message(mv, board.turn, p) {
                            Some(t) => out.push(broadcast(entry.name.as_str(), t, None, 0)),
                            None => {},
                        },
                        None => {},
                    },
                }
                proof {
                    assert(outbound_views(out@) =~= first + second);
                }
                if board.is_checkmate() {
                    let t = string_of("/checkmate");
                    proof {
                        reveal_strlit("/checkmate");
                        assert(t@ =~= checkmate_text());
                    }
                    out.push(broadcast(entry.name.as_str(), t, None, 0));
                    proof {
                        assert(outbound_views(out@) =~= first + second + seq![
                            OutboundView::Broadcast { room: rn, text: checkmate_text(), skip: None, delay_ms: 0 },
                        ]);
                    }
                } else {
                    proof {
                        assert(outbound_views(out@) =~= first + second + Seq::<OutboundView>::empty());
                    }
                }
                proof {
                    assert(outbound_views(out@) == move_messages(rn, id@, piece@, from@, to@, *board, mv));
                }
            },
        }
        self.rooms.insert(ri, entry);
        proof {
            assert forall|j: int| 0 <= j < before.len() && j != ri implies self.rooms@[j] == before[j] by {}
            lemma_put_back(before, self.rooms@, ri as int);
            match result {
                Err(_) => {
                    assert(self.rooms@ =~= before);
                },
                Ok(mv) => {},
            }
            if result is Err {
                assert(outbound_views(out@) =~= seq![
                    OutboundView::Direct {
                        id: id@,
                        text: sync_board_text(
                            before[ri as int].name@,
                            before[ri as int].room.chess_board.fen@,
                            trash_text(before[ri as int].room.chess_board.deleted_stones@),
                        ),
                    },
                ]);
            }
        }
        out
    }
}

/// An undo (or, with `forward`, a redo) in room `e0` by user `id`: the
/// room becomes `e1` as the room's own step says, and `out` is what is
/// sent. A step to a stored position makes the room hear that board (and
/// `/checkmate` after a redo that lands on one); at the end of the history
/// the user is warned and the room hears the board again; a position that
/// cannot be set up again is reported to the user alone.
pub open spec fn history_done(e0: RoomEntry, e1: RoomEntry, id: Seq<char>, forward: bool, out: Seq<OutboundView>) -> bool {
    let r = e0.room;
    let name = e0.name@;
    &&& e1.name == e0.name
    &&& if forward {
        exists|res: Result<crate::room::MoveResult, HistoryError>| crate::room::redo_step(r, e1.room, res)
    } else {
        exists|res: Result<crate::room::MoveResult, HistoryError>| crate::room::undo_step(r, e1.room, res)
    }
    &&& {
        let next = if forward {
            crate::room::cursor_after(r.current_move_index)
        } else {
            match r.current_move_index {
                Some(i) => i as int,
                None => -1,
            }
        };
        if next < 0 || next >= r.moves@.len() {
            out == seq![
                OutboundView::Direct {
                    id,
                    text: if forward {
                        "/notify warning No more moves to redo"@
                    } else {
                        "/notify warning No more moves to undo"@
                    },
                },
                OutboundView::Broadcast {
                    room: name,
                    text: sync_board_text(name, r.current_fen@, r.trash@),
                    skip: None,
                    delay_ms: 0,
                },
            ]
        } else {
            let m = r.moves@[next]@;
            let fen = if forward {
                m.current_fen
            } else {
                m.previous_fen
            };
            let trash = if forward {
                m.current_trash
            } else {
                m.previous_trash
            };
            if builds(fen, trash, r.chess_board.validation) {
                out == seq![
                    OutboundView::Broadcast {
                        room: name,
                        text: sync_board_text(name, fen, trash),
                        skip: None,
                        delay_ms: 0,
                    },
                ] + if forward && checkmate(e1.room.chess_board.scene()) {
                    seq![OutboundView::Broadcast { room: name, text: "/checkmate"@, skip: None, delay_ms: 0 }]
                } else {
                    Seq::empty()
                }
            } else {
                out == seq![
                    OutboundView::Direct {
                        id,
                        text: if forward {
                            "/notify error Failed to redo move"@
                        } else {
                            "/notify error Failed to undo move"@
                        },
                    },
                ]
            }
        }
    }
}

/// `/notify <kind> <message>`.
fn notify(id: &str, text: &'static str) -> (r: Outbound)
    ensures
        r@ == (OutboundView::Direct { id: id@, text: text@ }),
{
    direct(id, string_of(text))
}

impl ChessServer {
    /// The user with id `id` and the index of its room, if both exist.
    fn locate(&self, id: &str) -> (r: Option<(usize, usize)>)
        requires
            self.wf(),
        ensures
            match r {
                None => self.locate_spec(id@) is None,
                Some(p) => self.locate_spec(id@) == Some(p.1 as int) && p.1 < self.rooms@.len() && p.0
                    < self.sessions@.len(),
            },
    {
        let ui = match find_user(&self.sessions, id) {
            Some(ui) => ui,
            None => {
                return None;
            },
        };
        match find_room(&self.rooms, self.sessions[ui].current_room.as_str()) {
            Some(ri) => {
                proof {
                    lemma_find_room_spec(self.rooms@, self.sessions@[ui as int].current_room@, ri as int);
                }
                Some((ui, ri))
            },
            None => {
                proof {
                    lemma_find_room_none(self.rooms@, self.sessions@[ui as int].current_room@);
                }
                None
            },
        }
    }

    /// A chat line from user `id`, passed on to the rest of its room.
    pub fn client_message(&self, id: &str, msg: &str) -> (out: Vec<Outbound>)
        requires
            self.wf(),
        ensures
            match index_of_id(self.sessions@, id@, self.sessions@.len() as int) {
                None => out@.len() == 0,
                Some(ui) => outbound_views(out@) == seq![
                    OutboundView::Broadcast {
                        room: self.sessions@[ui].current_room@,
                        text: msg@,
                        skip: Some(id@),
                        delay_ms: 0,
                    },
                ],
            },
    {
        let mut out: Vec<Outbound> = Vec::new();
        match find_user(&self.sessions, id) {
            Some(ui) => {
                out.push(broadcast(self.sessions[ui].current_room.as_str(), string_of(msg), Some(id), 0));
                proof {
                    assert(outbound_views(out@) =~= seq![
                        OutboundView::Broadcast {
                            room: self.sessions@[ui as int].current_room@,
                            text: msg@,
                            skip: Some(id@),
                            delay_ms: 0,
                        },
                    ]);
                }
            },
            None => {},
        }
        out
    }

    /// User `id` lost its connection at `now`: it is marked away, stays in
    /// its room, and the rest of the room hears of it.
    pub fn disconnect(&mut self, id: &str, now: u64) -> (out: Vec<Outbound>)
        requires
            old(self).wf(),
        ensures
            final(self).wf(),
            room_names(final(self).rooms@) == room_names(old(self).rooms@),
            match index_of_id(old(self).sessions@, id@, old(self).sessions@.len() as int) {
                None => out@.len() == 0 && *final(self) == *old(self),
                Some(ui) => {
                    &&& final(self).sessions@.len() == old(self).sessions@.len()
                    &&& final(self).sessions@[ui]@ == (UserView {
                        disconected_at: Some(now),
                        ..old(self).sessions@[ui]@
                    })
                    &&& forall|j: int| 0 <= j < old(self).sessions@.len() && j != ui ==> #[trigger] final(self).sessions@[j]
                        == old(self).sessions@[j]
                    &&& outbound_views(out@) == seq![
                        OutboundView::Broadcast {
                            room: old(self).sessions@[ui].current_room@,
                            text: command_text(
                                seq!['/', 'd', 'i', 's', 'c', 'o', 'n', 'n', 'e', 'c', 't', '_', 'u', 's', 'e', 'r'],
                                user_text(final(self).sessions@[ui]),
                            ),
                            skip: Some(id@),
                            delay_ms: 0,
                        },
                    ]
                },
            },
    {
        let mut out: Vec<Outbound> = Vec::new();
        let ui = match find_user(&self.sessions, id) {
            Some(ui) => ui,
            None => {
                return out;
            },
        };
        let u = self.sessions[ui].copy();
        let u = User { disconected_at: Some(now), ..u };
        let text = command_message("/disconnect_user", u.to_string().as_str());
        let room_name = copy_string(&u.current_room);
        let ghost gu = u;
        proof {
            reveal_strlit("/disconnect_user");
            assert(text@ == command_text(
                seq!['/', 'd', 'i', 's', 'c', 'o', 'n', 'n', 'e', 'c', 't', '_', 'u', 's', 'e', 'r'],
                user_text(gu),
            ));
        }
        self.replace_user(ui, u);
        self.detach_status(id, room_name.as_str(), Some(now));
        out.push(broadcast(room_name.as_str(), text, Some(id), 0));
        proof {
            reveal_strlit("/disconnect_user");
            assert(outbound_views(out@) =~= seq![
                OutboundView::Broadcast {
                    room: old(self).sessions@[ui as int].current_room@,
                    text: command_text(
                        seq!['/', 'd', 'i', 's', 'c', 'o', 'n', 'n', 'e', 'c', 't', '_', 'u', 's', 'e', 'r'],
                        user_text(self.sessions@[ui as int]),
                    ),
                    skip: Some(id@),
                    delay_ms: 0,
                },
            ]);
        }
        out
    }

    /// Sets when user `id` of room `room_name` went away (or that it is
    /// back, with `None`).
    fn detach_status(&mut self, id: &str, room_name: &str, at: Option<u64>)
        requires
            old(self).wf(),
        ensures
            final(self).wf(),
            room_names(final(self).rooms@) == room_names(old(self).rooms@),
            final(self).sessions == old(self).sessions,
            final(self).visitor_count == old(self).visitor_count,
    {
        match find_room(&self.rooms, room_name) {
            Some(i) => {
                let ghost before = self.rooms@;
                let mut entry = self.rooms.remove(i);
                match at {
                    Some(t) => entry.room.disconnect_session(id, t),
                    None => entry.room.connect_session(id),
                }
                self.rooms.insert(i, entry);
                proof {
                    assert forall|j: int| 0 <= j < before.len() && j != i implies self.rooms@[j] == before[j] by {}
                    lemma_put_back(before, self.rooms@, i as int);
                }
            },
            None => {},
        }
    }

    /// Sets the room of user `id` back to its starting position; the room
    /// hears the board, or the user alone hears that it failed.
    pub fn reset(&mut self, id: &str) -> (out: Vec<Outbound>)
        requires
            old(self).wf(),
        ensures
            final(self).wf(),
            final(self).sessions == old(self).sessions,
            room_names(final(self).rooms@) == room_names(old(self).rooms@),
            match old(self).locate_spec(id@) {
                None => out@.len() == 0 && *final(self) == *old(self),
                Some(ri) => {
                    let e0 = old(self).rooms@[ri];
                    let e1 = final(self).rooms@[ri];
                    &&& forall|j: int| 0 <= j < old(self).rooms@.len() && j != ri ==> #[trigger] final(self).rooms@[j] == old(self).rooms@[j]
                    &&& if builds(e0.room.original_fen@, e0.room.original_trash@, e0.room.chess_board.validation) {
                        &&& e1.room.current_fen@ == e0.room.original_fen@
                        &&& e1.room.trash@ == e0.room.original_trash@
                        &&& e1.room.moves@.len() == 0
                        &&& e1.room.current_move_index is None
                        &&& outbound_views(out@) == seq![
                            OutboundView::Broadcast {
                                room: e0.name@,
                                text: sync_board_text(e0.name@, e0.room.original_fen@, e0.room.original_trash@),
                                skip: None,
                                delay_ms: 0,
                            },
                        ]
                    } else {
                        &&& e1.room == e0.room
                        &&& outbound_views(out@) == seq![
                            OutboundView::Direct { id: id@, text: "/notify error Failed to reset board"@ },
                        ]
                    }
                },
            },
    {
        let mut out: Vec<Outbound> = Vec::new();
        let (ui, ri) = match self.locate(id) {
            Some(p) => p,
            None => {
                return out;
            },
        };
        let ghost before = self.rooms@;
        let mut entry = self.rooms.remove(ri);
        match entry.room.reset() {
            Ok(()) => {
                let t = sync_board_message(entry.name.as_str(), entry.room.current_fen.as_str(), entry.room.trash.as_str());
                out.push(broadcast(entry.name.as_str(), t, None, 0));
            },
            Err(()) => {
                out.push(notify(id, "/notify error Failed to reset board"));
            },
        }
        self.rooms.insert(ri, entry);
        proof {
            assert forall|j: int| 0 <= j < before.len() && j != ri implies self.rooms@[j] == before[j] by {}
            lemma_put_back(before, self.rooms@, ri as int);
            assert(outbound_views(out@) =~= seq![out@[0]@]);
        }
        out
    }

    /// Takes back the last move in the room of user `id`, or moves forward
    /// again (`forward`).
    fn step_history(&mut self, id: &str, forward: bool) -> (out: Vec<Outbound>)
        requires
            old(self).wf(),
        ensures
            final(self).wf(),
            final(self).sessions == old(self).sessions,
            room_names(final(self).rooms@) == room_names(old(self).rooms@),
            match old(self).locate_spec(id@) {
                None => out@.len() == 0 && *final(self) == *old(self),
                Some(ri) => {
                    &&& forall|j: int| 0 <= j < old(self).rooms@.len() && j != ri ==> #[trigger] final(self).rooms@[j] == old(self).rooms@[j]
                    &&& history_done(old(self).rooms@[ri], final(self).rooms@[ri], id@, forward, outbound_views(out@))
                },
            },
    {
        let mut out: Vec<Outbound> = Vec::new();
        let (ui, ri) = match self.locate(id) {
            Some(p) => p,
            None => {
                return out;
            },
        };
        let ghost before = self.rooms@;
        let mut entry = self.rooms.remove(ri);
        let ghost e0 = entry;
        let result = if forward {
            entry.room.redo()
        } else {
            entry.room.undo()
        };
        let ghost gres = result;
        match result {
            Ok(m) => {
                let t = if forward {
                    sync_board_message(entry.name.as_str(), m.current_fen.as_str(), m.current_trash.as_str())
                } else {
                    sync_board_message(entry.name.as_str(), m.previous_fen.as_str(), m.previous_trash.as_str())
                };
                out.push(broadcast(entry.name.as_str(), t, None, 0));
                if forward && entry.room.chess_board.is_checkmate() {
                    out.push(broadcast(entry.name.as_str(), string_of("/checkmate"), None, 0));
                }
            },
            Err(HistoryError::NoMoreMoves) => {
                if forward {
                    out.push(notify(id, "/notify warning No more moves to redo"));
                } else {
                    out.push(notify(id, "/notify warning No more moves to undo"));
                }
                let t = sync_board_message(entry.name.as_str(), entry.room.current_fen.as_str(), entry.room.trash.as_str());
                out.push(broadcast(entry.name.as_str(), t, None, 0));
            },
            Err(HistoryError::BuildFailed) => {
                if forward {
                    out.push(notify(id, "/notify error Failed to redo move"));
                } else {
                    out.push(notify(id, "/notify error Failed to undo move"));
                }
            },
        }
        let ghost e1 = entry;
        self.rooms.insert(ri, entry);
        proof {
            assert forall|j: int| 0 <= j < before.len() && j != ri implies self.rooms@[j] == before[j] by {}
            lemma_put_back(before, self.rooms@, ri as int);
            assert(self.rooms@[ri as int] == e1);
            if forward {
                assert(crate::room::redo_step(e0.room, e1.room, gres));
            } else {
                assert(crate::room::undo_step(e0.room, e1.room, gres));
            }
            if out@.len() == 1 {
                assert(outbound_views(out@) =~= seq![out@[0]@]);
            } else {
                assert(outbound_views(out@) =~= seq![out@[0]@, out@[1]@]);
            }
            let name = e0.name@;
            let r = e0.room;
            match gres {
                Ok(m) => {
                    let mv = m@;
                    if forward {
                        let next = crate::room::cursor_after(r.current_move_index);
                        assert(next < r.moves@.len());
                        assert(mv == r.moves@[next]@);
                        if checkmate(e1.room.chess_board.scene()) {
                            assert(outbound_views(out@) =~= seq![
                                OutboundView::Broadcast {
                                    room: name,
                                    text: sync_board_text(name, mv.current_fen, mv.current_trash),
                                    skip: None,
                                    delay_ms: 0,
                                },
                            ] + seq![OutboundView::Broadcast { room: name, text: "/checkmate"@, skip: None, delay_ms: 0 }]);
                        } else {
                            assert(outbound_views(out@) =~= seq![
                                OutboundView::Broadcast {
                                    room: name,
                                    text: sync_board_text(name, mv.current_fen, mv.current_trash),
                                    skip: None,
                                    delay_ms: 0,
                                },
                            ] + Seq::<OutboundView>::empty());
                        }
                    } else {
                        assert(outbound_views(out@) =~= seq![
                            OutboundView::Broadcast {
                                room: name,
                                text: sync_board_text(name, mv.previous_fen, mv.previous_trash),
                                skip: None,
                                delay_ms: 0,
                            },
                        ] + Seq::<OutboundView>::empty());
                    }
                },
                Err(_) => {},
            }
            assert(history_done(e0, e1, id@, forward, outbound_views(out@)));
        }
        out
    }

    /// The index of the room of user `id`, if both exist.
    pub open spec fn locate_spec(&self, id: Seq<char>) -> Option<int> {
        match index_of_id(self.sessions@, id, self.sessions@.len() as int) {
            None => None,
            Some(ui) => find_room_spec(self.rooms@, self.sessions@[ui].current_room@),
        }
    }

    /// Takes back the last move in the room of user `id`; the room hears
    /// the board as it was before that move.
    pub fn undo(&mut self, id: &str) -> (out: Vec<Outbound>)
        requires
            old(self).wf(),
        ensures
            final(self).wf(),
            final(self).sessions == old(self).sessions,
            room_names(final(self).rooms@) == room_names(old(self).rooms@),
            match old(self).locate_spec(id@) {
                None => out@.len() == 0 && *final(self) == *old(self),
                Some(ri) => {
                    &&& forall|j: int| 0 <= j < old(self).rooms@.len() && j != ri ==> #[trigger] final(self).rooms@[j] == old(self).rooms@[j]
                    &&& history_done(old(self).rooms@[ri], final(self).rooms@[ri], id@, false, outbound_views(out@))
                },
            },
    {
        self.step_history(id, false)
    }

    /// Plays the next undone move again in the room of user `id`.
    pub fn redo(&mut self, id: &str) -> (out: Vec<Outbound>)
        requires
            old(self).wf(),
        ensures
            final(self).wf(),
            final(self).sessions == old(self).sessions,
            room_names(final(self).rooms@) == room_names(old(self).rooms@),
            match old(self).locate_spec(id@) {
                None => out@.len() == 0 && *final(self) == *old(self),
                Some(ri) => {
                    &&& forall|j: int| 0 <= j < old(self).rooms@.len() && j != ri ==> #[trigger] final(self).rooms@[j] == old(self).rooms@[j]
                    &&& history_done(old(self).rooms@[ri], final(self).rooms@[ri], id@, true, outbound_views(out@))
                },
            },
    {
        self.step_history(id, true)
    }

    /// New switches for the board of the room of user `id`; the user hears
    /// whether they were applied and the room hears the switches in force
    /// afterwards.
    pub fn options(&mut self, id: &str, validation: bool, sync: bool) -> (out: Vec<Outbound>)
        requires
            old(self).wf(),
        ensures
            final(self).wf(),
            final(self).sessions == old(self).sessions,
            room_names(final(self).rooms@) == room_names(old(self).rooms@),
            match old(self).locate_spec(id@) {
                None => out@.len() == 0 && *final(self) == *old(self),
                Some(ri) => {
                    let e0 = old(self).rooms@[ri];
                    let e1 = final(self).rooms@[ri];
                    let ok = builds(e0.room.current_fen@, e0.room.trash@, validation);
                    &&& forall|j: int| 0 <= j < old(self).rooms@.len() && j != ri ==> #[trigger] final(self).rooms@[j] == old(self).rooms@[j]
                    &&& (ok ==> e1.room.chess_board.validation == validation && e1.room.chess_board.sync == sync)
                    &&& (!ok ==> e1.room == e0.room)
                    &&& outbound_views(out@) == seq![
                        OutboundView::Direct {
                            id: id@,
                            text: if ok {
                                "/notify success Options applied"@
                            } else {
                                "/notify error Failed to apply options"@
                            },
                        },
                        OutboundView::Broadcast {
                            room: e0.name@,
                            text: crate::messages::sync_options_text(
                                crate::room::options_text(e1.room.chess_board.validation, e1.room.chess_board.sync),
                            ),
                            skip: None,
                            delay_ms: 0,
                        },
                    ]
                },
            },
    {
        let mut out: Vec<Outbound> = Vec::new();
        let (ui, ri) = match self.locate(id) {
            Some(p) => p,
            None => {
                return out;
            },
        };
        let ghost before = self.rooms@;
        let mut entry = self.rooms.remove(ri);
        match entry.room.set_options(validation, sync) {
            Ok(()) => out.push(notify(id, "/notify success Options applied")),
            Err(()) => out.push(notify(id, "/notify error Failed to apply options")),
        }
        let options = entry.room.options_string();
        out.push(broadcast(entry.name.as_str(), sync_options_message(options.as_str()), None, 0));
        self.rooms.insert(ri, entry);
        proof {
            assert forall|j: int| 0 <= j < before.len() && j != ri implies self.rooms@[j] == before[j] by {}
            lemma_put_back(before, self.rooms@, ri as int);
            assert(outbound_views(out@) =~= seq![out@[0]@, out@[1]@]);
        }
        out
    }

    /// User `id` takes the name `name`; its room hears of it.
    pub fn user_sync(&mut self, id: &str, name: &str) -> (out: Vec<Outbound>)
        requires
            old(self).wf(),
        ensures
            final(self).wf(),
            room_names(final(self).rooms@) == room_names(old(self).rooms@),
            match index_of_id(old(self).sessions@, id@, old(self).sessions@.len() as int) {
                None => out@.len() == 0 && *final(self) == *old(self),
                Some(ui) => {
                    &&& final(self).sessions@[ui]@ == (UserView { name: name@, ..old(self).sessions@[ui]@ })
                    &&& outbound_views(out@) == seq![
                        OutboundView::Broadcast {
                            room: old(self).sessions@[ui].current_room@,
                            text: command_text("/add_user"@, user_text(final(self).sessions@[ui])),
                            skip: None,
                            delay_ms: 0,
                        },
                    ]
                },
            },
    {
        let mut out: Vec<Outbound> = Vec::new();
        let ui = match find_user(&self.sessions, id) {
            Some(ui) => ui,
            None => {
                return out;
            },
        };
        let u = self.sessions[ui].copy();
        let u = User { name: string_of(name), ..u };
        let text = command_message("/add_user", u.to_string().as_str());
        let room_name = copy_string(&u.current_room);
        let room_copy = u.copy();
        let ghost gu = u;
        self.replace_user(ui, u);
        match find_room(&self.rooms, room_name.as_str()) {
            Some(ri) => {
                let ghost before = self.rooms@;
                let mut entry = self.rooms.remove(ri);
                match find_user(&entry.room.sessions, id) {
                    Some(_) => entry.room.insert_session(string_of(id), room_copy),
                    None => {},
                }
                self.rooms.insert(ri, entry);
                proof {
                    assert forall|j: int| 0 <= j < before.len() && j != ri implies self.rooms@[j] == before[j] by {}
                    lemma_put_back(before, self.rooms@, ri as int);
                }
            },
            None => {},
        }
        out.push(broadcast(room_name.as_str(), text, None, 0));
        proof {
            assert(self.sessions@[ui as int] == gu);
            assert(outbound_views(out@) =~= seq![out@[0]@]);
        }
        out
    }
}

/// User `id` is in none of the rooms of `s` but those named `keep`.
pub open spec fn only_in(s: Seq<RoomEntry>, id: Seq<char>, keep: Seq<char>) -> bool {
    forall|i: int, j: int|
        0 <= i < s.len() && s[i].name@ != keep && 0 <= j < s[i].room.sessions@.len() ==> (#[trigger] s[i].room.sessions@[j]).id@
            != id
}

impl ChessServer {
    /// Adds room `name` if it is missing, set up from `fen` and `trash`;
    /// gives its index.
    fn room_for(&mut self, name: &str, fen: Option<String>, trash: Option<String>, now: u64) -> (r: Option<usize>)
        requires
            old(self).wf(),
        ensures
            final(self).wf(),
            final(self).sessions == old(self).sessions,
            final(self).visitor_count == old(self).visitor_count,
            final(self).rooms@.len() >= old(self).rooms@.len(),
            forall|j: int| 0 <= j < old(self).rooms@.len() ==> #[trigger] final(self).rooms@[j] == old(self).rooms@[j],
            forall|j: int| old(self).rooms@.len() <= j < final(self).rooms@.len() ==> (#[trigger] final(self).rooms@[j]).name@ == name@
                && final(self).rooms@[j].room.sessions@.len() == 0,
            r matches Some(i) ==> i < final(self).rooms@.len() && final(self).rooms@[i as int].name@ == name@,
            r is None <==> ((forall|j: int| 0 <= j < old(self).rooms@.len() ==> old(self).rooms@[j].name@ != name@)
                && !builds(seed_fen(fen), seed_trash(trash), false)),
            r is Some ==> final(self).rooms@.len() <= old(self).rooms@.len() + 1,
            r is None ==> final(self).rooms@ == old(self).rooms@,
    {
        match find_room(&self.rooms, name) {
            Some(i) => Some(i),
            None => match Room::new(fen, trash, now) {
                Ok(room) => {
                    let ghost before = self.rooms@;
                    self.rooms.push(RoomEntry { name: string_of(name), room });
                    proof {
                        assert forall|a: int, b: int| 0 <= a < b < self.rooms@.len() implies self.rooms@[a].name@
                            != self.rooms@[b].name@ by {
                            if b == before.len() {
                                assert(before[a].name@ != name@);
                            } else {
                                assert(before[a] == self.rooms@[a] && before[b] == self.rooms@[b]);
                            }
                        }
                        assert forall|a: int| 0 <= a < self.rooms@.len() implies (#[trigger] self.rooms@[a]).room.wf() by {
                            if a < before.len() {
                                assert(before[a] == self.rooms@[a]);
                            }
                        }
                    }
                    Some(self.rooms.len() - 1)
                },
                Err(_) => None,
            },
        }
    }

    /// Puts a copy of `user` into room `ri`, which is then not empty.
    fn seat(&mut self, ri: usize, user: &User)
        requires
            old(self).wf(),
            ri < old(self).rooms@.len(),
        ensures
            final(self).wf(),
            final(self).sessions == old(self).sessions,
            final(self).visitor_count == old(self).visitor_count,
            room_names(final(self).rooms@) == room_names(old(self).rooms@),
            final(self).rooms@.len() == old(self).rooms@.len(),
            forall|j: int| 0 <= j < old(self).rooms@.len() && j != ri ==> #[trigger] final(self).rooms@[j] == old(self).rooms@[j],
            index_of_id(
                final(self).rooms@[ri as int].room.sessions@,
                user.id@,
                final(self).rooms@[ri as int].room.sessions@.len() as int,
            ) is Some,
            forall|j: int|
                0 <= j < final(self).rooms@[ri as int].room.sessions@.len() ==> (#[trigger] final(self).rooms@[ri as int].room.sessions@[j]).id@
                    == user.id@ || exists|k: int|
                    0 <= k < old(self).rooms@[ri as int].room.sessions@.len()
                        && old(self).rooms@[ri as int].room.sessions@[k] == final(self).rooms@[ri as int].room.sessions@[j],
    {
        let ghost before = self.rooms@;
        let mut entry = self.rooms.remove(ri);
        let ghost s0 = entry.room.sessions@;
        entry.room.insert_session(copy_string(&user.id), user.copy());
        entry.room.empty_at = None;
        proof {
            let s1 = entry.room.sessions@;
            assert forall|j: int| 0 <= j < s1.len() implies (#[trigger] s1[j]).id@ == user.id@ || exists|k: int|
                0 <= k < s0.len() && s0[k] == s1[j] by {
                if s1[j].id@ != user.id@ {
                    crate::room::lemma_index_of_id(s1, s1[j].id@, s1.len() as int);
                    crate::room::lemma_index_of_id(s0, s1[j].id@, s0.len() as int);
                    let i1 = index_of_id(s1, s1[j].id@, s1.len() as int).unwrap();
                    assert(i1 == j) by {
                        if i1 != j {
                            assert(s1[i1].id@ == s1[j].id@);
                        }
                    }
                }
            }
        }
        self.rooms.insert(ri, entry);
        proof {
            assert forall|j: int| 0 <= j < before.len() && j != ri implies self.rooms@[j] == before[j] by {}
            lemma_put_back(before, self.rooms@, ri as int);
        }
    }

    /// Takes user `id` out of every room, marking a room it leaves empty
    /// since `now`; gives the names of the rooms it left.
    fn leave_all_rooms(&mut self, id: &str, now: u64) -> (r: Vec<String>)
        requires
            old(self).wf(),
        ensures
            final(self).wf(),
            final(self).sessions == old(self).sessions,
            final(self).visitor_count == old(self).visitor_count,
            room_names(final(self).rooms@) == room_names(old(self).rooms@),
            forall|i: int, j: int|
                0 <= i < final(self).rooms@.len() && 0 <= j < final(self).rooms@[i].room.sessions@.len() ==> (#[trigger] final(self).rooms@[i].room.sessions@[j]).id@
                    != id@,
            Seq::new(r@.len(), |j: int| r@[j]@) == rooms_holding(old(self).rooms@, id@),
    {
        let mut left: Vec<String> = Vec::new();
        let mut k: usize = 0;
        while k < self.rooms.len()
            invariant
                self.wf(),
                k <= self.rooms@.len(),
                self.sessions == old(self).sessions,
                self.visitor_count == old(self).visitor_count,
                room_names(self.rooms@) == room_names(old(self).rooms@),
                forall|i: int, j: int|
                    0 <= i < k && 0 <= j < self.rooms@[i].room.sessions@.len() ==> (#[trigger] self.rooms@[i].room.sessions@[j]).id@
                        != id@,
                self.rooms@.len() == old(self).rooms@.len(),
                forall|i: int| k <= i < self.rooms@.len() ==> #[trigger] self.rooms@[i] == old(self).rooms@[i],
                Seq::new(left@.len(), |j: int| left@[j]@) == rooms_holding(old(self).rooms@.subrange(0, k as int), id@),
            decreases self.rooms@.len() - k,
        {
            let ghost before = self.rooms@;
            let ghost lv = Seq::new(left@.len(), |j: int| left@[j]@);
            proof {
                let o = old(self).rooms@;
                assert(o.subrange(0, k + 1).drop_last() =~= o.subrange(0, k as int));
                assert(before[k as int] == o[k as int]);
            }
            let mut entry = self.rooms.remove(k);
            match entry.room.remove_session(id) {
                Some(_) => {
                    left.push(copy_string(&entry.name));
                    if entry.room.sessions.len() == 0 {
                        entry.room.empty_at = Some(now);
                    }
                },
                None => {},
            }
            self.rooms.insert(k, entry);
            proof {
                assert forall|j: int| 0 <= j < before.len() && j != k implies self.rooms@[j] == before[j] by {}
                lemma_put_back(before, self.rooms@, k as int);
                assert(Seq::new(left@.len(), |j: int| left@[j]@) =~= rooms_holding(
                    old(self).rooms@.subrange(0, k + 1),
                    id@,
                ));
                assert forall|i: int, j: int|
                    0 <= i < k + 1 && 0 <= j < self.rooms@[i].room.sessions@.len() implies (#[trigger] self.rooms@[i].room.sessions@[j]).id@
                        != id@ by {
                    if i < k {
                        assert(self.rooms@[i] == before[i]);
                    }
                }
            }
            k = k + 1;
        }
        proof {
            assert(old(self).rooms@.subrange(0, old(self).rooms@.len() as int) =~= old(self).rooms@);
        }
        left
    }

    /// User `id` joins room `name`, leaving every other room; a missing
    /// room is set up from `fen` and `trash` (the default board without
    /// them). The user hears the room's state, the rooms it left and the
    /// room it joined hear of it.
    pub fn join(&mut self, id: &str, name: &str, fen: Option<String>, trash: Option<String>, now: u64) -> (out: Vec<Outbound>)
        requires
            old(self).wf(),
        ensures
            final(self).wf(),
            match index_of_id(old(self).sessions@, id@, old(self).sessions@.len() as int) {
                None => out@.len() == 0 && *final(self) == *old(self),
                Some(ui) => {
                    let fails = find_room_spec(old(self).rooms@, name@) is None && !builds(
                        seed_fen(fen),
                        seed_trash(trash),
                        false,
                    );
                    &&& final(self).sessions@[ui]@ == (UserView { current_room: name@, ..old(self).sessions@[ui]@ })
                    &&& final(self).sessions@.len() == old(self).sessions@.len()
                    &&& forall|j: int| 0 <= j < old(self).sessions@.len() && j != ui ==> #[trigger] final(self).sessions@[j] == old(self).sessions@[j]
                    &&& only_in(final(self).rooms@, id@, name@)
                    &&& fails ==> outbound_views(out@) == seq![
                        OutboundView::Direct { id: id@, text: "/notify error Failed to create room"@ },
                    ]
                    &&& !fails ==> (find_room_spec(final(self).rooms@, name@) matches Some(ri) && {
                        &&& index_of_id(
                            final(self).rooms@[ri].room.sessions@,
                            id@,
                            final(self).rooms@[ri].room.sessions@.len() as int,
                        ) is Some
                        &&& outbound_views(out@) == join_messages(
                            rooms_holding(old(self).rooms@, id@),
                            final(self).sessions@[ui],
                            id@,
                            final(self).rooms@[ri],
                        )
                    })
                },
            },
    {
        let mut out: Vec<Outbound> = Vec::new();
        let ui = match find_user(&self.sessions, id) {
            Some(ui) => ui,
            None => {
                return out;
            },
        };
        let u = self.sessions[ui].copy();
        let u = User { current_room: string_of(name), ..u };
        let user_string = u.to_string();
        let seated = u.copy();
        let ghost gu = u;
        self.replace_user(ui, u);
        let ghost rooms0 = self.rooms@;
        let left = self.leave_all_rooms(id, now);
        let ghost after_leave = self.rooms@;
        proof {
            assert(room_names(after_leave).len() == room_names(rooms0).len());
            if find_room_spec(old(self).rooms@, name@) is Some {
                lemma_find_room_spec_some(old(self).rooms@, name@);
                let j = choose|j: int| 0 <= j < old(self).rooms@.len() && old(self).rooms@[j].name@ == name@;
                assert(room_names(after_leave)[j] == room_names(rooms0)[j]);
            } else {
                assert forall|j: int| 0 <= j < after_leave.len() implies after_leave[j].name@ != name@ by {
                    assert(room_names(after_leave)[j] == room_names(rooms0)[j]);
                    if rooms0[j].name@ == name@ {
                        lemma_find_room_spec(rooms0, name@, j);
                    }
                }
            }
        }
        let ri = match self.room_for(name, fen, trash, now) {
            Some(ri) => ri,
            None => {
                out.push(notify(id, "/notify error Failed to create room"));
                proof {
                    assert(outbound_views(out@) =~= seq![out@[0]@]);
                    assert forall|i: int, j: int|
                        0 <= i < self.rooms@.len() && self.rooms@[i].name@ != name@ && 0 <= j < self.rooms@[i].room.sessions@.len()
                            implies (#[trigger] self.rooms@[i].room.sessions@[j]).id@ != id@ by {}
                }
                return out;
            },
        };
        let ghost mid = self.rooms@;
        proof {
            assert forall|i: int, j: int| 0 <= i < mid.len() && 0 <= j < mid[i].room.sessions@.len() implies (#[trigger] mid[i].room.sessions@[j]).id@
                != id@ by {
                if i < after_leave.len() {
                    assert(mid[i] == after_leave[i]);
                }
            }
        }
        self.seat(ri, &seated);
        proof {
            assert(room_names(self.rooms@)[ri as int] == room_names(mid)[ri as int]);
        }
        let mut k: usize = 0;
        proof {
            assert(outbound_views(out@) =~= Seq::new(0, |j: int| removal_view(left@[j]@, gu)));
        }
        while k < left.len()
            invariant
                k <= left@.len(),
                out@.len() == k,
                outbound_views(out@) == Seq::new(k as nat, |j: int| removal_view(left@[j]@, gu)),
                user_string@ == user_text(gu),
            decreases left@.len() - k,
        {
            let ghost prev = out@;
            out.push(broadcast(left[k].as_str(), command_message("/remove_user", user_string.as_str()), None, 0));
            proof {
                assert forall|j: int| 0 <= j < k + 1 implies #[trigger] outbound_views(out@)[j] == removal_view(
                    left@[j]@,
                    gu,
                ) by {
                    if j < k {
                        assert(out@[j] == prev[j]);
                        assert(outbound_views(prev)[j] == removal_view(left@[j]@, gu));
                    }
                }
                assert(outbound_views(out@) =~= Seq::new((k + 1) as nat, |j: int| removal_view(left@[j]@, gu)));
            }
            k = k + 1;
        }
        let ghost removals = outbound_views(out@);
        let mut sync = self.sync_messages(id, ri);
        let ghost sv = outbound_views(sync@);
        out.append(&mut sync);
        proof {
            assert(outbound_views(out@) =~= removals + sv);
        }
        let mut note = string_of("/notify success Joined room ");
        push_all(&mut note, name);
        out.push(direct(id, note));
        out.push(broadcast(name, command_message("/add_user", user_string.as_str()), Some(id), 0));
        proof {
            reveal_strlit("/notify success Joined room ");
            reveal_strlit("/add_user");
            assert(removals =~= Seq::new(
                rooms_holding(old(self).rooms@, id@).len(),
                |j: int| removal_view(rooms_holding(old(self).rooms@, id@)[j], gu),
            ));
            assert(outbound_views(out@) =~= join_messages(
                rooms_holding(old(self).rooms@, id@),
                gu,
                id@,
                self.rooms@[ri as int],
            ));
            assert(self.sessions@[ui as int] == gu);
            assert forall|i: int, j: int|
                0 <= i < self.rooms@.len() && self.rooms@[i].name@ != name@ && 0 <= j < self.rooms@[i].room.sessions@.len()
                    implies (#[trigger] self.rooms@[i].room.sessions@[j]).id@ != id@ by {
                if i != ri {
                    assert(self.rooms@[i] == mid[i]);
                }
            }
            lemma_find_room_spec(self.rooms@, name@, ri as int);
        }
        out
    }

    /// User `id` connects, under `name`, at `now`. A known user gets its
    /// connection back and its room hears of it; a new user starts in the
    /// room `main`, which it and that room hear of. Either way the user
    /// hears the state of its room.
    pub fn connect(&mut self, id: &str, name: &str, now: u64) -> (out: Vec<Outbound>)
        requires
            old(self).wf(),
        ensures
            final(self).wf(),
            index_of_id(final(self).sessions@, id@, final(self).sessions@.len() as int) is Some,
            match index_of_id(old(self).sessions@, id@, old(self).sessions@.len() as int) {
                Some(ui) => {
                    &&& final(self).sessions@.len() == old(self).sessions@.len()
                    &&& final(self).sessions@[ui]@ == (UserView { disconected_at: None, ..old(self).sessions@[ui]@ })
                    &&& room_names(final(self).rooms@) == room_names(old(self).rooms@)
                    &&& match find_room_spec(final(self).rooms@, old(self).sessions@[ui].current_room@) {
                        None => out@.len() == 0,
                        Some(ri) => outbound_views(out@) == seq![
                            OutboundView::Broadcast {
                                room: old(self).sessions@[ui].current_room@,
                                text: command_text("/connect_user"@, user_text(final(self).sessions@[ui])),
                                skip: Some(id@),
                                delay_ms: 0,
                            },
                        ] + sync_views(final(self).rooms@[ri], id@) + if checkmate(
                            final(self).rooms@[ri].room.chess_board.scene(),
                        ) {
                            seq![OutboundView::Direct { id: id@, text: "/checkmate"@ }]
                        } else {
                            Seq::empty()
                        },
                    }
                },
                None => {
                    &&& final(self).sessions@.len() == old(self).sessions@.len() + 1
                    &&& final(self).sessions@.last()@ == (UserView {
                        id: id@,
                        name: name@,
                        current_room: MAIN_ROOM@,
                        disconected_at: None,
                    })
                    &&& (find_room_spec(old(self).rooms@, MAIN_ROOM@) is Some || builds(
                        crate::room::DEFAULT_FEN@,
                        Seq::<char>::empty(),
                        false,
                    )) ==> find_room_spec(final(self).rooms@, MAIN_ROOM@) is Some
                    &&& match find_room_spec(final(self).rooms@, MAIN_ROOM@) {
                        None => out@.len() == 0,
                        Some(ri) => {
                            &&& index_of_id(
                                final(self).rooms@[ri].room.sessions@,
                                id@,
                                final(self).rooms@[ri].room.sessions@.len() as int,
                            ) is Some
                            &&& outbound_views(out@) == seq![
                                OutboundView::Broadcast {
                                    room: MAIN_ROOM@,
                                    text: command_text("/add_user"@, user_text(final(self).sessions@.last())),
                                    skip: Some(id@),
                                    delay_ms: 0,
                                },
                            ] + sync_views(final(self).rooms@[ri], id@)
                        },
                    }
                },
            },
    {
        let mut out: Vec<Outbound> = Vec::new();
        match find_user(&self.sessions, id) {
            Some(ui) => {
                let u = self.sessions[ui].copy();
                let u = User { disconected_at: None, ..u };
                let user_string = u.to_string();
                let room_name = copy_string(&u.current_room);
                let ghost gu = u;
                let ghost rooms0 = self.rooms@;
                self.replace_user(ui, u);
                proof {
                    crate::room::lemma_index_of_id(self.sessions@, id@, self.sessions@.len() as int);
                    assert(self.sessions@[ui as int].id@ == id@);
                    assert(index_of_id(self.sessions@, id@, self.sessions@.len() as int) is Some) by {
                        if index_of_id(self.sessions@, id@, self.sessions@.len() as int) is None {
                            assert(self.sessions@[ui as int].id@ != id@);
                        }
                    }
                }
                self.detach_status(id, room_name.as_str(), None);
                proof {
                    assert(self.sessions@[ui as int] == gu);
                    assert(room_names(self.rooms@).len() == room_names(rooms0).len());
                    assert(self.rooms@.len() == rooms0.len());
                    assert(room_name@ == old(self).sessions@[ui as int].current_room@);
                }
                match find_room(&self.rooms, room_name.as_str()) {
                    Some(ri) => {
                        proof {
                            assert(room_names(self.rooms@)[ri as int] == room_names(rooms0)[ri as int]);
                            lemma_find_room_spec(rooms0, room_name@, ri as int);
                        }
                        out.push(broadcast(room_name.as_str(), command_message("/connect_user", user_string.as_str()), Some(id), 0));
                        let ghost first = outbound_views(out@);
                        let mut sync = self.sync_messages(id, ri);
                        let ghost sv = outbound_views(sync@);
                        out.append(&mut sync);
                        proof {
                            reveal_strlit("/connect_user");
                            assert(outbound_views(out@) =~= first + sv);
                            lemma_find_room_spec(self.rooms@, room_name@, ri as int);
                        }
                        if self.rooms[ri].room.chess_board.is_checkmate() {
                            let ghost mid = outbound_views(out@);
                            out.push(direct(id, string_of("/checkmate")));
                            proof {
                                assert(outbound_views(out@) =~= mid + seq![OutboundView::Direct { id: id@, text: "/checkmate"@ }]);
                            }
                        } else {
                            proof {
                                assert(outbound_views(out@) =~= outbound_views(out@) + Seq::<OutboundView>::empty());
                            }
                        }
                    },
                    None => {
                        proof {
                            assert forall|j: int| 0 <= j < rooms0.len() implies rooms0[j].name@ != room_name@ by {
                                assert(room_names(self.rooms@)[j] == room_names(rooms0)[j]);
                            }
                            lemma_find_room_none(rooms0, room_name@);
                            lemma_find_room_none(self.rooms@, room_name@);
                        }
                    },
                }
            },
            None => {
                let user = User::new(string_of(id), string_of(name), string_of(MAIN_ROOM), None);
                let user_string = user.to_string();
                let seated = user.copy();
                let ghost gu = user;
                let ghost rooms0 = self.rooms@;
                let ghost before = self.sessions@;
                self.sessions.push(user);
                proof {
                    assert forall|a: int, b: int| 0 <= a < b < self.sessions@.len() implies self.sessions@[a].id@
                        != self.sessions@[b].id@ by {
                        if b == before.len() {
                            assert(before[a].id@ != id@);
                        } else {
                            assert(before[a] == self.sessions@[a] && before[b] == self.sessions@[b]);
                        }
                    }
                    crate::room::lemma_index_of_id(self.sessions@, id@, self.sessions@.len() as int);
                    assert(index_of_id(self.sessions@, id@, self.sessions@.len() as int) is Some) by {
                        if index_of_id(self.sessions@, id@, self.sessions@.len() as int) is None {
                            assert(self.sessions@[before.len() as int].id@ != id@);
                        }
                    }
                    reveal_strlit("main");
                }
                if self.visitor_count < u64::MAX {
                    self.visitor_count = self.visitor_count + 1;
                }
                match self.room_for(MAIN_ROOM, None, None, now) {
                    Some(ri) => {
                        self.seat(ri, &seated);
                        out.push(broadcast(MAIN_ROOM, command_message("/add_user", user_string.as_str()), Some(id), 0));
                        let ghost first = outbound_views(out@);
                        let mut sync = self.sync_messages(id, ri);
                        let ghost sv = outbound_views(sync@);
                        out.append(&mut sync);
                        proof {
                            reveal_strlit("/add_user");
                            assert(self.sessions@.last() == gu);
                            assert(outbound_views(out@) =~= first + sv);
                            assert(room_names(self.rooms@)[ri as int] == self.rooms@[ri as int].name@);
                            lemma_find_room_spec(self.rooms@, MAIN_ROOM@, ri as int);
                        }
                    },
                    None => {
                        proof {
                            reveal_strlit("main");
                            if find_room_spec(rooms0, MAIN_ROOM@) is Some {
                                lemma_find_room_spec_some(rooms0, MAIN_ROOM@);
                            }
                            lemma_find_room_none(self.rooms@, MAIN_ROOM@);
                        }
                    },
                }
            },
        }
        out
    }
}

} // verus!
