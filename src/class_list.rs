//! A space-separated list of class names.
use vstd::prelude::*;
use crate::text::{join_with, push_all, push_char, same_text, split_on, split_text, string_of};

verus! {

pub struct ClassList {
    pub class_name: String,
}

/// The pieces of `parts` other than `c`, in order.
pub open spec fn without(parts: Seq<Seq<char>>, c: Seq<char>) -> Seq<Seq<char>>
    decreases parts.len(),
{
    if parts.len() == 0 {
        Seq::empty()
    } else if parts.last() == c {
        without(parts.drop_last(), c)
    } else {
        without(parts.drop_last(), c).push(parts.last())
    }
}

proof fn lemma_without_len(parts: Seq<Seq<char>>, c: Seq<char>)
    ensures
        without(parts, c).len() <= parts.len(),
    decreases parts.len(),
{
    if parts.len() > 0 {
        lemma_without_len(parts.drop_last(), c);
    }
}

impl ClassList {
    pub fn new(class_name: &str) -> (r: ClassList)
        ensures
            r.class_name@ == class_name@,
    {
        ClassList { class_name: string_of(class_name) }
    }

    /// Adds `class` at the end unless it is already listed.
    pub fn add(&mut self, class: &str)
        ensures
            split_on(old(self).class_name@, ' ').contains(class@) ==> final(self).class_name@
                == old(self).class_name@,
            !split_on(old(self).class_name@, ' ').contains(class@) ==> final(self).class_name@
                == old(self).class_name@.push(' ') + class@,
    {
        let parts = split_text(self.class_name.as_str(), ' ');
        let ghost pv = split_on(self.class_name@, ' ');
        let mut i: usize = 0;
        while i < parts.len()
            invariant
                i <= parts@.len(),
                parts@.len() == pv.len(),
                forall|j: int| 0 <= j < parts@.len() ==> #[trigger] parts@[j]@ == pv[j],
                forall|j: int| 0 <= j < i ==> pv[j] != class@,
                pv == split_on(old(self).class_name@, ' '),
                self.class_name == old(self).class_name,
            decreases parts@.len() - i,
        {
            if same_text(parts[i].as_str(), class) {
                proof {
                    assert(pv[i as int] == class@);
                    assert(pv.contains(class@));
                }
                return;
            }
            i = i + 1;
        }
        push_char(&mut self.class_name, ' ');
        push_all(&mut self.class_name, class);
    }

    /// Drops every `class` from the list.
    pub fn remove(&mut self, class: &str)
        ensures
            final(self).class_name@ == join_with(without(split_on(old(self).class_name@, ' '), class@), ' '),
    {
        let parts = split_text(self.class_name.as_str(), ' ');
        let ghost pv = split_on(self.class_name@, ' ');
        let mut out = String::new();
        let mut kept: usize = 0;
        let mut i: usize = 0;
        while i < parts.len()
            invariant
                i <= parts@.len(),
                parts@.len() == pv.len(),
                forall|j: int| 0 <= j < parts@.len() ==> #[trigger] parts@[j]@ == pv[j],
                kept == without(pv.subrange(0, i as int), class@).len(),
                kept <= i,
                out@ == join_with(without(pv.subrange(0, i as int), class@), ' '),
            decreases parts@.len() - i,
        {
            let ghost before = without(pv.subrange(0, i as int), class@);
            proof {
                lemma_without_len(pv.subrange(0, i as int), class@);
            }
            proof {
                assert(pv.subrange(0, i + 1).drop_last() =~= pv.subrange(0, i as int));
            }
            if !same_text(parts[i].as_str(), class) {
                if kept > 0 {
                    push_char(&mut out, ' ');
                }
                push_all(&mut out, parts[i].as_str());
                proof {
                    let now = before.push(pv[i as int]);
                    assert(now.drop_last() =~= before);
                    if kept == 0 {
                        assert(before.len() == 0);
                        assert(join_with(before, ' ') == Seq::<char>::empty());
                        assert(out@ =~= join_with(now, ' '));
                    }
                }
                kept = kept + 1;
            }
            i = i + 1;
        }
        proof {
            assert(pv.subrange(0, parts@.len() as int) =~= pv);
        }
        self.class_name = out;
    }
}

} // verus!
