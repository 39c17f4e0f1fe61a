//! The texts of the wire protocol that the coordinator sends.
use vstd::prelude::*;
use crate::text::{join_with, push_all, push_char, string_of};

verus! {

/// `/sync_board <room>|<fen>|<trash>`.
pub open spec fn sync_board_text(room: Seq<char>, fen: Seq<char>, trash: Seq<char>) -> Seq<char> {
    seq!['/', 's', 'y', 'n', 'c', '_', 'b', 'o', 'a', 'r', 'd', ' '] + room + seq!['|'] + fen + seq!['|']
        + trash
}

/// `/sync_users <room>|<user>,<user>,...`.
pub open spec fn sync_users_text(room: Seq<char>, users: Seq<Seq<char>>) -> Seq<char> {
    seq!['/', 's', 'y', 'n', 'c', '_', 'u', 's', 'e', 'r', 's', ' '] + room + seq!['|'] + join_with(
        users,
        ',',
    )
}

/// `/sync_options <options>`.
pub open spec fn sync_options_text(options: Seq<char>) -> Seq<char> {
    seq!['/', 's', 'y', 'n', 'c', '_', 'o', 'p', 't', 'i', 'o', 'n', 's', ' '] + options
}

/// `<command> <argument>`, such as `/add_user id:name:online`.
pub open spec fn command_text(command: Seq<char>, argument: Seq<char>) -> Seq<char> {
    command + seq![' '] + argument
}

/// `/sync_board <room>|<fen>|<trash>`.
pub fn sync_board_message(room: &str, fen: &str, trash: &str) -> (r: String)
    ensures
        r@ == sync_board_text(room@, fen@, trash@),
{
    let mut s = string_of("/sync_board ");
    push_all(&mut s, room);
    push_char(&mut s, '|');
    push_all(&mut s, fen);
    push_char(&mut s, '|');
    push_all(&mut s, trash);
    proof {
        reveal_strlit("/sync_board ");
        assert(s@ =~= sync_board_text(room@, fen@, trash@));
    }
    s
}

/// `/sync_users <room>|<user>,<user>,...`.
pub fn sync_users_message(room: &str, users: &Vec<String>) -> (r: String)
    ensures
        r@ == sync_users_text(room@, Seq::new(users@.len(), |i: int| users@[i]@)),
{
    let mut s = string_of("/sync_users ");
    push_all(&mut s, room);
    push_char(&mut s, '|');
    let ghost head = s@;
    let ghost views = Seq::new(users@.len(), |i: int| users@[i]@);
    let mut i: usize = 0;
    while i < users.len()
        invariant
            i <= users@.len(),
            views == Seq::new(users@.len(), |i: int| users@[i]@),
            s@ == head + join_with(views.subrange(0, i as int), ','),
        decreases users@.len() - i,
    {
        let ghost before = s@;
        if i > 0 {
            push_char(&mut s, ',');
        }
        push_all(&mut s, users[i].as_str());
        proof {
            let p = views.subrange(0, i + 1);
            assert(p.drop_last() =~= views.subrange(0, i as int));
            assert(p.last() == users@[i as int]@);
            if i == 0 {
                assert(join_with(p, ',') == p[0]);
                assert(join_with(views.subrange(0, 0), ',') == Seq::<char>::empty());
                assert(s@ =~= head + join_with(p, ','));
            } else {
                assert(s@ =~= head + join_with(p, ','));
            }
        }
        i = i + 1;
    }
    proof {
        reveal_strlit("/sync_users ");
        assert(views.subrange(0, users@.len() as int) =~= views);
        assert(s@ =~= sync_users_text(room@, views));
    }
    s
}

/// `/sync_options <options>`.
pub fn sync_options_message(options: &str) -> (r: String)
    ensures
        r@ == sync_options_text(options@),
{
    let mut s = string_of("/sync_options ");
    push_all(&mut s, options);
    proof {
        reveal_strlit("/sync_options ");
        assert(s@ =~= sync_options_text(options@));
    }
    s
}

/// `<command> <argument>`.
pub fn command_message(command: &str, argument: &str) -> (r: String)
    ensures
        r@ == command_text(command@, argument@),
{
    let mut s = string_of(command);
    push_char(&mut s, ' ');
    push_all(&mut s, argument);
    proof {
        assert(s@ =~= command_text(command@, argument@));
    }
    s
}

} // verus!
