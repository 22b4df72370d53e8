//! The lookup from a set's name to the cards printed in it.

use vstd::prelude::*;
use crate::model::{SetContent, SetContentView, views};

verus! {

/// The identifiers listed under `name`, or none where the name is unknown.
pub open spec fn listed(index: Map<Seq<char>, Seq<u32>>, name: Seq<char>) -> Seq<u32> {
    if index.dom().contains(name) {
        index[name]
    } else {
        Seq::empty()
    }
}

/// The index after one more card is listed under `name`.
pub open spec fn index_add(index: Map<Seq<char>, Seq<u32>>, name: Seq<char>, id: u32) -> Map<
    Seq<char>,
    Seq<u32>,
> {
    index.insert(name, listed(index, name).push(id))
}

/// The index after the printings `contents` are entered in order; a printing
/// without a set name enters nothing.
pub open spec fn index_extend(
    index: Map<Seq<char>, Seq<u32>>,
    contents: Seq<SetContentView>,
) -> Map<Seq<char>, Seq<u32>>
    decreases contents.len(),
{
    if contents.len() == 0 {
        index
    } else {
        let before = index_extend(index, contents.drop_last());
        match contents.last().set_name {
            Some(name) => index_add(before, name, contents.last().card_id),
            None => before,
        }
    }
}

/// The cards that `contents` print in the set `name`, in order.
pub open spec fn members(contents: Seq<SetContentView>, name: Seq<char>) -> Seq<u32>
    decreases contents.len(),
{
    if contents.len() == 0 {
        Seq::empty()
    } else {
        let before = members(contents.drop_last(), name);
        if contents.last().set_name == Some(name) {
            before.push(contents.last().card_id)
        } else {
            before
        }
    }
}

/// Entering printings appends, under every name, exactly the cards printed
/// in that set, and a name is known afterwards if it was known before or
/// some printing carries it.
pub proof fn lemma_index_extend_members(
    index: Map<Seq<char>, Seq<u32>>,
    contents: Seq<SetContentView>,
    name: Seq<char>,
)
    ensures
        listed(index_extend(index, contents), name) == listed(index, name) + members(
            contents,
            name,
        ),
        index_extend(index, contents).dom().contains(name) <==> (index.dom().contains(name)
            || exists|i: int| 0 <= i < contents.len() && contents[i].set_name == Some(name)),
    decreases contents.len(),
{
    if contents.len() == 0 {
        assert(listed(index, name) + Seq::<u32>::empty() =~= listed(index, name));
    } else {
        let front = contents.drop_last();
        lemma_index_extend_members(index, front, name);
        let before = index_extend(index, front);
        if contents.last().set_name == Some(name) {
            assert(contents[contents.len() - 1].set_name == Some(name));
            assert(listed(index, name) + members(front, name).push(contents.last().card_id)
                =~= (listed(index, name) + members(front, name)).push(contents.last().card_id));
        } else {
            if exists|i: int| 0 <= i < contents.len() && contents[i].set_name == Some(name) {
                let i = choose|i: int| 0 <= i < contents.len() && contents[i].set_name == Some(name);
                assert(front[i].set_name == Some(name));
            }
        }
        if exists|i: int| 0 <= i < front.len() && front[i].set_name == Some(name) {
            let i = choose|i: int| 0 <= i < front.len() && front[i].set_name == Some(name);
            assert(contents[i].set_name == Some(name));
        }
    }
}

/// From each set name to the cards printed in the set, in the order in which
/// they were entered. No name is held twice.
pub struct SetIndex {
    entries: Vec<(String, Vec<u32>)>,
}

impl SetIndex {
    #[verifier::type_invariant]
    spec fn distinct_names(&self) -> bool {
        forall|i: int, j: int|
            0 <= i < j < self.entries.len() ==> self.entries[i].0@ != self.entries[j].0@
    }

    /// Whether the name is held.
    pub closed spec fn holds(&self, name: Seq<char>) -> bool {
        exists|i: int| 0 <= i < self.entries.len() && self.entries[i].0@ == name
    }

    /// The place of a name that is held.
    pub closed spec fn slot(&self, name: Seq<char>) -> int {
        choose|i: int| 0 <= i < self.entries.len() && self.entries[i].0@ == name
    }
}

impl View for SetIndex {
    type V = Map<Seq<char>, Seq<u32>>;

    closed spec fn view(&self) -> Map<Seq<char>, Seq<u32>> {
        Map::new(
            |name: Seq<char>| self.holds(name),
            |name: Seq<char>| self.entries[self.slot(name)].1@,
        )
    }
}

impl SetIndex {
    /// An index that knows no set.
    pub fn new() -> (out: SetIndex)
        ensures
            out@ == Map::<Seq<char>, Seq<u32>>::empty(),
    {
        let out = SetIndex { entries: Vec::new() };
        assert(out@ =~= Map::<Seq<char>, Seq<u32>>::empty());
        out
    }

    fn position(&self, name: &String) -> (out: Option<usize>)
        ensures
            match out {
                Some(i) => i < self.entries.len() && self.entries[i as int].0@ == name@
                    && self.holds(name@) && self.slot(name@) == i,
                None => !self.holds(name@),
            },
    {
        proof {
            use_type_invariant(self);
        }
        let mut i: usize = 0;
        while i < self.entries.len()
            invariant
                0 <= i <= self.entries.len(),
                self.distinct_names(),
                forall|j: int| 0 <= j < i ==> self.entries[j].0@ != name@,
            decreases self.entries.len() - i,
        {
            if self.entries[i].0 == *name {
                return Some(i);
            }
            i += 1;
        }
        None
    }

    /// Lists one more card under `name`.
    pub fn insert(&mut self, name: &String, id: u32)
        ensures
            final(self)@ == index_add(old(self)@, name@, id),
    {
        proof {
            use_type_invariant(&*self);
        }
        let ghost before = *self;
        let found = self.position(name);
        let mut entries: Vec<(String, Vec<u32>)> = Vec::new();
        core::mem::swap(&mut entries, &mut self.entries);
        let ghost e0 = entries@;
        match found {
            Some(i) => {
                let (held, mut list) = entries.remove(i);
                list.push(id);
                entries.insert(i, (held, list));
                assert(entries@ =~= e0.update(i as int, (held, list)));
                assert(list@ == e0[i as int].1@.push(id));
            },
            None => {
                let mut list: Vec<u32> = Vec::new();
                list.push(id);
                assert(list@ =~= Seq::<u32>::empty().push(id));
                entries.push((name.clone(), list));
            },
        }
        let ghost e1 = entries@;
        assert forall|a: int, b: int| 0 <= a < b < e1.len() implies e1[a].0@ != e1[b].0@ by {
            if found is Some {
                assert(e1[a].0@ == e0[a].0@);
                assert(e1[b].0@ == e0[b].0@);
            } else {
                if b < e0.len() {
                    assert(e1[a] == e0[a] && e1[b] == e0[b]);
                } else {
                    assert(e1[a] == e0[a]);
                    assert(e1[b].0@ == name@);
                }
            }
        }
        core::mem::swap(&mut entries, &mut self.entries);
        proof {
            let after = *self;
            assert(after.entries@ == e1);
            assert(before.entries@ == e0);
            assert forall|n: Seq<char>| after.holds(n) == (before.holds(n) || n == name@) by {
                if before.holds(n) {
                    let k = before.slot(n);
                    assert(e1[k].0@ == n);
                }
                if after.holds(n) && n != name@ {
                    let k = after.slot(n);
                    assert(e0[k].0@ == n);
                }
                if n == name@ {
                    if found is Some {
                        assert(e1[found->0 as int].0@ == n);
                    } else {
                        assert(e1[e0.len() as int].0@ == n);
                    }
                }
            }
            assert forall|n: Seq<char>| before.holds(n) implies after.slot(n) == before.slot(
                n,
            ) by {
                let k = before.slot(n);
                assert(e1[k].0@ == n);
                let k2 = after.slot(n);
                assert(e1[k2].0@ == n);
            }
            if found is None {
                assert(e1[e0.len() as int].0@ == name@);
                assert(after.slot(name@) == e0.len());
            }
            assert(after@ =~= index_add(before@, name@, id));
        }
    }

    /// The cards listed under `name`, copied; none where the name is unknown.
    pub fn get(&self, name: &String) -> (out: Vec<u32>)
        ensures
            out@ == listed(self@, name@),
    {
        match self.position(name) {
            Some(i) => self.entries[i].1.clone(),
            None => Vec::new(),
        }
    }

    /// Enters every printing that names its set, in order.
    pub fn extend(&mut self, contents: &Vec<SetContent>)
        ensures
            final(self)@ == index_extend(old(self)@, views(contents@)),
    {
        let mut i: usize = 0;
        while i < contents.len()
            invariant
                0 <= i <= contents.len(),
                self@ == index_extend(old(self)@, views(contents@).take(i as int)),
            decreases contents.len() - i,
        {
            proof {
                assert(views(contents@).take(i + 1).drop_last() =~= views(contents@).take(i as int));
            }
            match &contents[i].set_name {
                Some(name) => {
                    self.insert(name, contents[i].card_id);
                },
                None => {},
            }
            i += 1;
        }
        proof {
            assert(views(contents@).take(i as int) =~= views(contents@));
        }
    }
}

} // verus!
