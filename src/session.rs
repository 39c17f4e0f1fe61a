//! Reading the text lines that a session receives into commands for the
//! coordinator.
use vstd::prelude::*;
use crate::text::{push_all, push_char, same_text, string_of};

verus! {

/// What one inbound line asks for.
#[derive(Debug)]
pub enum Command {
    /// `/join <room>[ <fen>|<trash>]`.
    Join { room: String, fen: Option<String>, trash: Option<String> },
    /// `/username <name>`.
    Username { name: String },
    /// `/move <piece> <from> <to>`.
    Move { piece: String, from: String, to: String },
    Reset,
    Undo,
    Redo,
    /// A chat line for the room, with the sender's name in front.
    Chat { text: String },
    /// A line that is answered to the sender alone.
    Reply { text: String },
}

/// The whitespace that is trimmed off a line.
pub open spec fn is_space(c: char) -> bool {
    c == ' ' || c == '\t' || c == '\n' || c == '\r' || c == '\x0B' || c == '\x0C'
}

/// The index of the first `c` in `s`.
pub open spec fn first_of(s: Seq<char>, c: char, n: int) -> Option<int>
    decreases n,
{
    if n <= 0 {
        None
    } else {
        match first_of(s, c, n - 1) {
            Some(i) => Some(i),
            None => if s[n - 1] == c {
                Some(n - 1)
            } else {
                None
            },
        }
    }
}

/// `s` split at its first `c`, as `str::split_once` does.
pub open spec fn split_once(s: Seq<char>, c: char) -> Option<(Seq<char>, Seq<char>)> {
    match first_of(s, c, s.len() as int) {
        Some(i) => Some((s.subrange(0, i), s.subrange(i + 1, s.len() as int))),
        None => None,
    }
}

/// The number of leading characters of `s` that are whitespace.
pub open spec fn lead(s: Seq<char>, n: int) -> int
    decreases n,
{
    if n <= 0 {
        0
    } else if lead(s, n - 1) == n - 1 && is_space(s[n - 1]) {
        n
    } else {
        lead(s, n - 1)
    }
}

/// The number of trailing characters of `s` that are whitespace.
pub open spec fn trail(s: Seq<char>, n: int) -> int
    decreases n,
{
    if n <= 0 {
        0
    } else if trail(s, n - 1) == n - 1 && is_space(s[s.len() - n]) {
        n
    } else {
        trail(s, n - 1)
    }
}

/// `s` without its leading and trailing whitespace.
pub open spec fn trimmed(s: Seq<char>) -> Seq<char> {
    let a = lead(s, s.len() as int);
    if a == s.len() {
        Seq::empty()
    } else {
        s.subrange(a, s.len() - trail(s, s.len() as int))
    }
}

pub proof fn lemma_lead_bound(s: Seq<char>, n: int)
    requires
        0 <= n,
    ensures
        0 <= lead(s, n) <= n,
    decreases n,
{
    if n > 0 {
        lemma_lead_bound(s, n - 1);
    }
}

pub proof fn lemma_trail_bound(s: Seq<char>, n: int)
    requires
        0 <= n,
    ensures
        0 <= trail(s, n) <= n,
    decreases n,
{
    if n > 0 {
        lemma_trail_bound(s, n - 1);
    }
}

/// Trailing and leading whitespace do not overlap unless all is space.
proof fn lemma_trim_bounds(s: Seq<char>)
    ensures
        lead(s, s.len() as int) < s.len() ==> lead(s, s.len() as int) + trail(s, s.len() as int) < s.len(),
{
    lemma_lead_bound(s, s.len() as int);
    lemma_trail_bound(s, s.len() as int);
    let a = lead(s, s.len() as int);
    if a < s.len() {
        lemma_lead_stops(s, s.len() as int);
        lemma_trail_stops_before(s, s.len() as int, a);
    }
}

/// Where the leading whitespace ends there is a character that is not space.
proof fn lemma_lead_stops(s: Seq<char>, n: int)
    requires
        0 <= n <= s.len(),
        lead(s, n) < n,
    ensures
        !is_space(s[lead(s, n)]),
        forall|i: int| 0 <= i < lead(s, n) ==> is_space(s[i]),
    decreases n,
{
    lemma_lead_bound(s, n - 1);
    if lead(s, n - 1) < n - 1 {
        lemma_lead_stops(s, n - 1);
    } else {
        lemma_lead_all(s, n - 1);
    }
}

proof fn lemma_lead_all(s: Seq<char>, n: int)
    requires
        0 <= n <= s.len(),
        lead(s, n) == n,
    ensures
        forall|i: int| 0 <= i < n ==> is_space(s[i]),
    decreases n,
{
    if n > 0 {
        lemma_lead_bound(s, n - 1);
        lemma_lead_all(s, n - 1);
    }
}

proof fn lemma_trail_all(s: Seq<char>, n: int)
    requires
        0 <= n <= s.len(),
        trail(s, n) == n,
    ensures
        forall|i: int| s.len() - n <= i < s.len() ==> is_space(s[i]),
    decreases n,
{
    if n > 0 {
        lemma_trail_bound(s, n - 1);
        lemma_trail_all(s, n - 1);
    }
}

proof fn lemma_trail_stops_before(s: Seq<char>, n: int, a: int)
    requires
        0 <= a < s.len(),
        n == s.len(),
        !is_space(s[a]),
    ensures
        trail(s, n) < s.len() - a,
{
    lemma_trail_bound(s, n);
    let t = trail(s, n);
    if t >= s.len() - a {
        lemma_trail_prefix(s, n, s.len() - a);
        lemma_trail_all(s, s.len() - a);
        assert(is_space(s[a]));
    }
}

proof fn lemma_trail_prefix(s: Seq<char>, n: int, m: int)
    requires
        0 <= m <= n <= s.len(),
        trail(s, n) >= m,
    ensures
        trail(s, m) == m,
    decreases n,
{
    lemma_trail_bound(s, n);
    if n > m {
        lemma_trail_bound(s, n - 1);
        if trail(s, n - 1) == n - 1 && is_space(s[s.len() - n]) {
            lemma_trail_full_prefix(s, n - 1, m);
        } else {
            lemma_trail_prefix(s, n - 1, m);
        }
    }
}

proof fn lemma_trail_full_prefix(s: Seq<char>, n: int, m: int)
    requires
        0 <= m <= n <= s.len(),
        trail(s, n) == n,
    ensures
        trail(s, m) == m,
    decreases n,
{
    if n > m {
        lemma_trail_bound(s, n - 1);
        lemma_trail_full_prefix(s, n - 1, m);
    }
}

fn is_space_exec(c: char) -> (r: bool)
    ensures
        r == is_space(c),
{
    c == ' ' || c == '\t' || c == '\n' || c == '\r' || c == '\x0B' || c == '\x0C'
}

/// `s` without leading and trailing whitespace.
pub fn trim(s: &str) -> (r: String)
    ensures
        r@ == trimmed(s@),
{
    let n = s.unicode_len();
    let mut a: usize = 0;
    while a < n && is_space_exec(s.get_char(a))
        invariant
            n == s@.len(),
            a <= n,
            lead(s@, a as int) == a,
        decreases n - a,
    {
        a = a + 1;
    }
    proof {
        lemma_lead_grow_stop(s@, a as int, n as int);
    }
    if a == n {
        return String::new();
    }
    let mut t: usize = 0;
    while t < n && is_space_exec(s.get_char(n - 1 - t))
        invariant
            n == s@.len(),
            t <= n,
            trail(s@, t as int) == t,
        decreases n - t,
    {
        t = t + 1;
    }
    proof {
        lemma_trail_grow_stop(s@, t as int, n as int);
        lemma_trim_bounds(s@);
    }
    string_of(s.substring_char(a, n - t))
}

proof fn lemma_lead_grow_stop(s: Seq<char>, a: int, n: int)
    requires
        n == s.len(),
        0 <= a <= n,
        lead(s, a) == a,
        a < n ==> !is_space(s[a]),
    ensures
        lead(s, n) == a,
    decreases n - a,
{
    if a < n {
        lemma_lead_keep(s, a, n, n);
    }
}

proof fn lemma_lead_keep(s: Seq<char>, a: int, m: int, n: int)
    requires
        n == s.len(),
        0 <= a < m <= n,
        lead(s, a) == a,
        !is_space(s[a]),
    ensures
        lead(s, m) == a,
    decreases m,
{
    if m == a + 1 {
    } else {
        lemma_lead_keep(s, a, m - 1, n);
    }
}

proof fn lemma_trail_grow_stop(s: Seq<char>, t: int, n: int)
    requires
        n == s.len(),
        0 <= t <= n,
        trail(s, t) == t,
        t < n ==> !is_space(s[n - 1 - t]),
    ensures
        trail(s, n) == t,
    decreases n - t,
{
    if t < n {
        lemma_trail_keep(s, t, n, n);
    }
}

proof fn lemma_trail_keep(s: Seq<char>, t: int, m: int, n: int)
    requires
        n == s.len(),
        0 <= t < m <= n,
        trail(s, t) == t,
        !is_space(s[n - 1 - t]),
    ensures
        trail(s, m) == t,
    decreases m,
{
    if m == t + 1 {
    } else {
        lemma_trail_keep(s, t, m - 1, n);
    }
}

/// The index of the first `c` in `s`.
fn find_char(s: &str, c: char) -> (r: Option<usize>)
    ensures
        match r {
            Some(i) => first_of(s@, c, s@.len() as int) == Some(i as int) && i < s@.len(),
            None => first_of(s@, c, s@.len() as int) is None,
        },
{
    let n = s.unicode_len();
    let mut i: usize = 0;
    while i < n
        invariant
            n == s@.len(),
            i <= n,
            first_of(s@, c, i as int) is None,
        decreases n - i,
    {
        if s.get_char(i) == c {
            proof {
                assert(first_of(s@, c, i + 1) == Some(i as int));
                lemma_first_of_stable(s@, c, i + 1, n as int);
            }
            return Some(i);
        }
        i = i + 1;
    }
    None
}

proof fn lemma_first_of_stable(s: Seq<char>, c: char, n: int, m: int)
    requires
        n <= m,
        first_of(s, c, n) is Some,
    ensures
        first_of(s, c, m) == first_of(s, c, n),
    decreases m - n,
{
    if n < m {
        lemma_first_of_stable(s, c, n, m - 1);
    }
}

/// `s` split at its first `c`.
pub fn split_at_first(s: &str, c: char) -> (r: Option<(String, String)>)
    ensures
        match r {
            Some((a, b)) => split_once(s@, c) == Some((a@, b@)),
            None => split_once(s@, c) is None,
        },
{
    match find_char(s, c) {
        Some(i) => {
            let n = s.unicode_len();
            Some((string_of(s.substring_char(0, i)), string_of(s.substring_char(i + 1, n))))
        },
        None => None,
    }
}

/// What a session does with one inbound line from a user named `name`.
pub open spec fn command_of(line: Seq<char>, name: Seq<char>) -> CommandView {
    let m = trimmed(line);
    if m.len() > 0 && m[0] == '/' {
        let (cmd, input) = match split_once(m, ' ') {
            Some(p) => p,
            None => (m, Seq::<char>::empty()),
        };
        if cmd == seq!['/', 'j', 'o', 'i', 'n'] {
            match split_once(input, ' ') {
                None => CommandView::Join { room: input, fen: None, trash: None },
                Some((room, rest)) => match split_once(rest, '|') {
                    Some((fen, trash)) => CommandView::Join { room, fen: Some(fen), trash: Some(trash) },
                    None => CommandView::Join { room, fen: Some(rest), trash: None },
                },
            }
        } else if cmd == seq!['/', 'u', 's', 'e', 'r', 'n', 'a', 'm', 'e'] {
            if input.len() > 0 {
                CommandView::Username { name: input }
            } else {
                CommandView::Reply { text: name_required_text() }
            }
        } else if cmd == seq!['/', 'm', 'o', 'v', 'e'] {
            match split_once(input, ' ') {
                Some((piece, rest)) => match split_once(rest, ' ') {
                    Some((from, to)) => CommandView::Move { piece, from, to },
                    None => CommandView::Reply { text: move_required_text() },
                },
                None => CommandView::Reply { text: move_required_text() },
            }
        } else if cmd == seq!['/', 'r', 'e', 's', 'e', 't'] {
            CommandView::Reset
        } else if cmd == seq!['/', 'u', 'n', 'd', 'o'] {
            CommandView::Undo
        } else if cmd == seq!['/', 'r', 'e', 'd', 'o'] {
            CommandView::Redo
        } else {
            CommandView::Reply { text: unknown_command_text(m) }
        }
    } else {
        CommandView::Chat { text: name + seq![':', ' '] + m }
    }
}

pub open spec fn name_required_text() -> Seq<char> {
    seq!['!', '!', '!', ' ', 'n', 'a', 'm', 'e', ' ', 'i', 's', ' ', 'r', 'e', 'q', 'u', 'i', 'r', 'e', 'd']
}

pub open spec fn move_required_text() -> Seq<char> {
    seq!['!', '!', '!', ' ', 'm', 'o', 'v', 'e', ' ', 'i', 's', ' ', 'r', 'e', 'q', 'u', 'i', 'r', 'e', 'd']
}

/// `!!! unknown command: "<line>"`.
pub open spec fn unknown_command_text(m: Seq<char>) -> Seq<char> {
    seq![
        '!', '!', '!', ' ', 'u', 'n', 'k', 'n', 'o', 'w', 'n', ' ', 'c', 'o', 'm', 'm', 'a', 'n', 'd',
        ':', ' ', '"',
    ] + m + seq!['"']
}

/// A command as plain values.
pub enum CommandView {
    Join { room: Seq<char>, fen: Option<Seq<char>>, trash: Option<Seq<char>> },
    Username { name: Seq<char> },
    Move { piece: Seq<char>, from: Seq<char>, to: Seq<char> },
    Reset,
    Undo,
    Redo,
    Chat { text: Seq<char> },
    Reply { text: Seq<char> },
}

impl View for Command {
    type V = CommandView;

    open spec fn view(&self) -> CommandView {
        match self {
            Command::Join { room, fen, trash } => CommandView::Join {
                room: room@,
                fen: match fen {
                    Some(f) => Some(f@),
                    None => None,
                },
                trash: match trash {
                    Some(t) => Some(t@),
                    None => None,
                },
            },
            Command::Username { name } => CommandView::Username { name: name@ },
            Command::Move { piece, from, to } => CommandView::Move { piece: piece@, from: from@, to: to@ },
            Command::Reset => CommandView::Reset,
            Command::Undo => CommandView::Undo,
            Command::Redo => CommandView::Redo,
            Command::Chat { text } => CommandView::Chat { text: text@ },
            Command::Reply { text } => CommandView::Reply { text: text@ },
        }
    }
}

/// Reads one inbound line from the user named `name`.
pub fn parse_command(line: &str, name: &str) -> (r: Command)
    ensures
        r@ == command_of(line@, name@),
{
    let m = trim(line);
    let ms = m.as_str();
    let n = ms.unicode_len();
    if n > 0 && ms.get_char(0) == '/' {
        let (cmd, input) = match split_at_first(ms, ' ') {
            Some(p) => p,
            None => (string_of(ms), String::new()),
        };
        proof {
            assert(split_once(m@, ' ') is None ==> input@ =~= Seq::<char>::empty());
        }
        proof {
            reveal_strlit("/join");
            reveal_strlit("/username");
            reveal_strlit("/move");
            reveal_strlit("/reset");
            reveal_strlit("/undo");
            reveal_strlit("/redo");
            assert("/join"@ =~= seq!['/', 'j', 'o', 'i', 'n']);
            assert("/username"@ =~= seq!['/', 'u', 's', 'e', 'r', 'n', 'a', 'm', 'e']);
            assert("/move"@ =~= seq!['/', 'm', 'o', 'v', 'e']);
            assert("/reset"@ =~= seq!['/', 'r', 'e', 's', 'e', 't']);
            assert("/undo"@ =~= seq!['/', 'u', 'n', 'd', 'o']);
            assert("/redo"@ =~= seq!['/', 'r', 'e', 'd', 'o']);
        }
        if same_text(cmd.as_str(), "/join") {
            match split_at_first(input.as_str(), ' ') {
                None => Command::Join { room: input, fen: None, trash: None },
                Some((room, rest)) => match split_at_first(rest.as_str(), '|') {
                    Some((fen, trash)) => Command::Join { room, fen: Some(fen), trash: Some(trash) },
                    None => Command::Join { room, fen: Some(rest), trash: None },
                },
            }
        } else if same_text(cmd.as_str(), "/username") {
            if input.as_str().unicode_len() > 0 {
                Command::Username { name: input }
            } else {
                let text = string_of("!!! name is required");
                proof {
                    reveal_strlit("!!! name is required");
                    assert(text@ =~= name_required_text());
                }
                Command::Reply { text }
            }
        } else if same_text(cmd.as_str(), "/move") {
            let text = string_of("!!! move is required");
            proof {
                reveal_strlit("!!! move is required");
                assert(text@ =~= move_required_text());
            }
            match split_at_first(input.as_str(), ' ') {
                Some((piece, rest)) => match split_at_first(rest.as_str(), ' ') {
                    Some((from, to)) => Command::Move { piece, from, to },
                    None => Command::Reply { text },
                },
                None => Command::Reply { text },
            }
        } else if same_text(cmd.as_str(), "/reset") {
            Command::Reset
        } else if same_text(cmd.as_str(), "/undo") {
            Command::Undo
        } else if same_text(cmd.as_str(), "/redo") {
            Command::Redo
        } else {
            let mut text = string_of("!!! unknown command: \"");
            push_all(&mut text, ms);
            push_char(&mut text, '"');
            proof {
                reveal_strlit("!!! unknown command: \"");
                assert(text@ =~= unknown_command_text(m@));
            }
            Command::Reply { text }
        }
    } else {
        let mut text = string_of(name);
        push_char(&mut text, ':');
        push_char(&mut text, ' ');
        push_all(&mut text, ms);
        proof {
            assert(text@ =~= name@ + seq![':', ' '] + m@);
        }
        Command::Chat { text }
    }
}

} // verus!
