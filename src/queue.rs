use vstd::prelude::*;
use vstd::multiset::Multiset;
use crate::event::Event;

verus! {

broadcast use vstd::seq_lib::group_to_multiset_ensures;

/// The pending events. Its view is the multiset of events it holds.
pub struct EventQueue {
    items: Vec<Event>,
}

impl View for EventQueue {
    type V = Multiset<Event>;

    closed spec fn view(&self) -> Multiset<Event> {
        self.items@.to_multiset()
    }
}

impl EventQueue {
    pub fn new() -> (r: EventQueue)
        ensures
            r@ == Multiset::<Event>::empty(),
    {
        let r = EventQueue { items: Vec::new() };
        assert(r.items@ =~= Seq::<Event>::empty());
        r
    }

    pub fn len(&self) -> (r: usize)
        ensures
            r == self@.len(),
    {
        self.items.len()
    }

    pub fn push(&mut self, e: Event)
        ensures
            final(self)@ == old(self)@.insert(e),
    {
        self.items.push(e);
    }

    /// Index of an event of least key; requires a non-empty queue.
    fn min_index(&self) -> (r: usize)
        requires
            self.items@.len() > 0,
        ensures
            r < self.items@.len(),
            forall|j: int| 0 <= j < self.items@.len() ==> self.items@[r as int].key() <= #[trigger] self.items@[j].key(),
    {
        let mut best: usize = 0;
        let mut best_key: u128 = self.items[0].exec_key();
        let mut i: usize = 1;
        while i < self.items.len()
            invariant
                1 <= i <= self.items@.len(),
                best < i,
                best_key as int == self.items@[best as int].key(),
                forall|j: int| 0 <= j < i ==> self.items@[best as int].key() <= #[trigger] self.items@[j].key(),
            decreases self.items@.len() - i,
        {
            let k = self.items[i].exec_key();
            if k < best_key {
                best = i;
                best_key = k;
            }
            i += 1;
        }
        best
    }

    /// An event of least key, without removing it.
    pub fn peek_min(&self) -> (r: Option<Event>)
        ensures
            r is None <==> self@.len() == 0,
            r matches Some(e) ==> self@.count(e) > 0 && forall|x: Event| #[trigger] self@.count(x) > 0 ==> e.key() <= x.key(),
    {
        if self.items.len() == 0 {
            None
        } else {
            let i = self.min_index();
            let e = self.items[i];
            proof {
                assert(self.items@.contains(e));
                assert forall|x: Event| #[trigger] self@.count(x) > 0 implies e.key() <= x.key() by {
                    assert(self.items@.contains(x));
                    let j = choose|j: int| 0 <= j < self.items@.len() && self.items@[j] == x;
                    assert(self.items@[i as int].key() <= self.items@[j].key());
                }
            }
            Some(e)
        }
    }

    /// Removes and returns an event of least key.
    pub fn pop_min(&mut self) -> (r: Option<Event>)
        ensures
            r is None <==> old(self)@.len() == 0,
            r is None ==> final(self)@ == old(self)@,
            r matches Some(e) ==> {
                &&& old(self)@.count(e) > 0
                &&& final(self)@ == old(self)@.remove(e)
                &&& forall|x: Event| #[trigger] old(self)@.count(x) > 0 ==> e.key() <= x.key()
            },
    {
        if self.items.len() == 0 {
            None
        } else {
            let i = self.min_index();
            let ghost before = self.items@;
            let e = self.items.remove(i);
            proof {
                assert(before.contains(e));
                assert(before.remove(i as int).to_multiset() == before.to_multiset().remove(before[i as int]));
                assert forall|x: Event| #[trigger] before.to_multiset().count(x) > 0 implies e.key() <= x.key() by {
                    assert(before.contains(x));
                    let j = choose|j: int| 0 <= j < before.len() && before[j] == x;
                    assert(before[i as int].key() <= before[j].key());
                }
            }
            Some(e)
        }
    }
}

} // verus!
