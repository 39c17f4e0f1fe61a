//! An inline style: `key:value;` declarations, one value per key, kept in
//! the order the keys were first set.
use vstd::prelude::*;
use crate::text::{push_all, push_char, same_text, split_on, split_text};

verus! {

pub struct Style {
    pub properties: Vec<(String, String)>,
}

/// The declarations of a style as plain values.
pub open spec fn entries(p: Seq<(String, String)>) -> Seq<(Seq<char>, Seq<char>)> {
    Seq::new(p.len(), |i: int| (p[i].0@, p[i].1@))
}

/// The position of key `k`.
pub open spec fn key_index(e: Seq<(Seq<char>, Seq<char>)>, k: Seq<char>, n: int) -> Option<int>
    decreases n,
{
    if n <= 0 {
        None
    } else {
        match key_index(e, k, n - 1) {
            Some(i) => Some(i),
            None => if e[n - 1].0 == k {
                Some(n - 1)
            } else {
                None
            },
        }
    }
}

/// `e` with key `k` set to `v`: in place if it is there, else at the end.
pub open spec fn put(e: Seq<(Seq<char>, Seq<char>)>, k: Seq<char>, v: Seq<char>) -> Seq<(Seq<char>, Seq<char>)> {
    match key_index(e, k, e.len() as int) {
        Some(i) => e.update(i, (k, v)),
        None => e.push((k, v)),
    }
}

/// `e` without key `k`.
pub open spec fn drop_key(e: Seq<(Seq<char>, Seq<char>)>, k: Seq<char>) -> Seq<(Seq<char>, Seq<char>)> {
    match key_index(e, k, e.len() as int) {
        Some(i) => e.remove(i),
        None => e,
    }
}

/// Every non-empty declaration of a style text has a `:`.
pub open spec fn well_formed_style(s: Seq<char>) -> bool {
    forall|i: int|
        0 <= i < split_on(s, ';').len() && split_on(s, ';')[i].len() > 0 ==> split_on(
            #[trigger] split_on(s, ';')[i],
            ':',
        ).len() >= 2
}

/// The declarations that the first `n` pieces of a style text set, later
/// ones overriding earlier ones.
pub open spec fn parse_pieces(pieces: Seq<Seq<char>>, n: int) -> Seq<(Seq<char>, Seq<char>)>
    decreases n,
{
    if n <= 0 {
        Seq::empty()
    } else if pieces[n - 1].len() == 0 {
        parse_pieces(pieces, n - 1)
    } else {
        let kv = split_on(pieces[n - 1], ':');
        put(parse_pieces(pieces, n - 1), kv[0], kv[1])
    }
}

/// The style text of a list of declarations.
pub open spec fn style_text(e: Seq<(Seq<char>, Seq<char>)>) -> Seq<char>
    decreases e.len(),
{
    if e.len() == 0 {
        Seq::empty()
    } else {
        style_text(e.drop_last()) + e.last().0 + seq![':'] + e.last().1 + seq![';']
    }
}

proof fn lemma_key_index(e: Seq<(Seq<char>, Seq<char>)>, k: Seq<char>, n: int)
    requires
        0 <= n <= e.len(),
    ensures
        key_index(e, k, n) matches Some(i) ==> 0 <= i < n && e[i].0 == k,
        key_index(e, k, n) is None ==> forall|j: int| 0 <= j < n ==> e[j].0 != k,
    decreases n,
{
    if n > 0 {
        lemma_key_index(e, k, n - 1);
    }
}

proof fn lemma_key_index_stable(e: Seq<(Seq<char>, Seq<char>)>, k: Seq<char>, n: int, m: int)
    requires
        n <= m,
        key_index(e, k, n) is Some,
    ensures
        key_index(e, k, m) == key_index(e, k, n),
    decreases m - n,
{
    if n < m {
        lemma_key_index_stable(e, k, n, m - 1);
    }
}

fn find_key(p: &Vec<(String, String)>, k: &str) -> (r: Option<usize>)
    ensures
        match r {
            Some(i) => key_index(entries(p@), k@, p@.len() as int) == Some(i as int) && i < p@.len(),
            None => key_index(entries(p@), k@, p@.len() as int) is None,
        },
{
    let ghost e = entries(p@);
    let mut i: usize = 0;
    while i < p.len()
        invariant
            i <= p@.len(),
            e == entries(p@),
            key_index(e, k@, i as int) is None,
        decreases p@.len() - i,
    {
        if same_text(p[i].0.as_str(), k) {
            proof {
                assert(key_index(e, k@, i + 1) == Some(i as int));
                lemma_key_index_stable(e, k@, i + 1, p@.len() as int);
            }
            return Some(i);
        }
        i = i + 1;
    }
    None
}

impl Style {
    /// Reads `key:value;` declarations; a key set twice keeps its last
    /// value.
    pub fn new(value: &str) -> (r: Style)
        requires
            well_formed_style(value@),
        ensures
            entries(r.properties@) == parse_pieces(split_on(value@, ';'), split_on(value@, ';').len() as int),
    {
        let pieces = split_text(value, ';');
        let ghost pv = split_on(value@, ';');
        let mut style = Style { properties: Vec::new() };
        let mut i: usize = 0;
        proof {
            assert(entries(style.properties@) =~= Seq::<(Seq<char>, Seq<char>)>::empty());
        }
        while i < pieces.len()
            invariant
                i <= pieces@.len(),
                pieces@.len() == pv.len(),
                pv == split_on(value@, ';'),
                well_formed_style(value@),
                forall|j: int| 0 <= j < pieces@.len() ==> #[trigger] pieces@[j]@ == pv[j],
                entries(style.properties@) == parse_pieces(pv, i as int),
            decreases pieces@.len() - i,
        {
            let piece = pieces[i].as_str();
            if piece.unicode_len() > 0 {
                let kv = split_text(piece, ':');
                proof {
                    assert(pv[i as int].len() > 0);
                    assert(split_on(pv[i as int], ':').len() >= 2);
                }
                style.set(kv[0].as_str(), kv[1].as_str());
            }
            i = i + 1;
        }
        style
    }

    /// Sets `key` to `value`.
    pub fn set(&mut self, key: &str, value: &str)
        ensures
            entries(final(self).properties@) == put(entries(old(self).properties@), key@, value@),
    {
        let ghost e = entries(self.properties@);
        match find_key(&self.properties, key) {
            Some(i) => {
                self.properties.set(i, (key.to_owned(), value.to_owned()));
                proof {
                    assert(entries(self.properties@) =~= e.update(i as int, (key@, value@)));
                }
            },
            None => {
                self.properties.push((key.to_owned(), value.to_owned()));
                proof {
                    assert(entries(self.properties@) =~= e.push((key@, value@)));
                }
            },
        }
    }

    /// Drops `key`.
    pub fn remove(&mut self, key: &str)
        ensures
            entries(final(self).properties@) == drop_key(entries(old(self).properties@), key@),
    {
        let ghost e = entries(self.properties@);
        match find_key(&self.properties, key) {
            Some(i) => {
                self.properties.remove(i);
                proof {
                    assert(entries(self.properties@) =~= e.remove(i as int));
                }
            },
            None => {},
        }
    }

    /// `key:value;` for every declaration, in order.
    pub fn to_string(&self) -> (r: String)
        ensures
            r@ == style_text(entries(self.properties@)),
    {
        let ghost e = entries(self.properties@);
        let mut s = String::new();
        let mut i: usize = 0;
        while i < self.properties.len()
            invariant
                i <= self.properties@.len(),
                e == entries(self.properties@),
                s@ == style_text(e.subrange(0, i as int)),
            decreases self.properties@.len() - i,
        {
            push_all(&mut s, self.properties[i].0.as_str());
            push_char(&mut s, ':');
            push_all(&mut s, self.properties[i].1.as_str());
            push_char(&mut s, ';');
            proof {
                let p = e.subrange(0, i + 1);
                assert(p.drop_last() =~= e.subrange(0, i as int));
                assert(p.last() == e[i as int]);
                assert(s@ =~= style_text(p));
            }
            i = i + 1;
        }
        proof {
            assert(e.subrange(0, self.properties@.len() as int) =~= e);
        }
        s
    }
}

} // verus!
