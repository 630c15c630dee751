//! A simulated client's memory of the notifications it received: a bounded
//! window, oldest first, that tells a first delivery from a repeat, and a
//! repeat before the acknowledgement from one after it.

use vstd::prelude::*;
use crate::assoc::keys_distinct;

verus! {

/// How a delivery relates to the ones before it.
#[derive(Debug, Clone, Copy, PartialEq, Eq, Structural)]
pub enum Seen {
    First,
    Repeat { after_ack: bool },
}

/// Whether `id` is in the window, and if so whether it was acknowledged.
pub open spec fn lookup(s: Seq<(Seq<char>, bool)>, id: Seq<char>) -> Option<bool>
    decreases s.len(),
{
    if s.len() == 0 {
        None
    } else if s.last().0 == id {
        Some(s.last().1)
    } else {
        lookup(s.drop_last(), id)
    }
}

/// A delivery of `id` to a window of `capacity`: a repeat leaves the window
/// as it is; a first delivery drops the oldest ids until there is room, then
/// enters `id` as not acknowledged.
pub open spec fn observe_model(s: Seq<(Seq<char>, bool)>, capacity: nat, id: Seq<char>) -> (Seq<(Seq<char>, bool)>, Seen) {
    match lookup(s, id) {
        Some(after_ack) => (s, Seen::Repeat { after_ack }),
        None => {
            let kept = if s.len() >= capacity {
                s.skip(s.len() - capacity + 1)
            } else {
                s
            };
            (kept.push((id, false)), Seen::First)
        },
    }
}

/// Marks `id` as acknowledged if it is in the window.
pub open spec fn mark_model(s: Seq<(Seq<char>, bool)>, id: Seq<char>) -> Seq<(Seq<char>, bool)> {
    Seq::new(s.len(), |i: int| if s[i].0 == id { (s[i].0, true) } else { s[i] })
}

/// An id the window does not hold appears nowhere in it.
pub proof fn lemma_lookup_none(s: Seq<(Seq<char>, bool)>, id: Seq<char>)
    requires
        lookup(s, id) is None,
    ensures
        forall|i: int| 0 <= i < s.len() ==> #[trigger] s[i].0 != id,
    decreases s.len(),
{
    if s.len() > 0 {
        lemma_lookup_none(s.drop_last(), id);
        assert forall|i: int| 0 <= i < s.len() implies #[trigger] s[i].0 != id by {
            if i < s.len() - 1 {
                assert(s[i] == s.drop_last()[i]);
            }
        }
    }
}

/// A notification delivered twice, with no acknowledgement between, is a
/// first delivery and then a repeat from before the acknowledgement.
pub proof fn law_repeat_before_the_ack(s: Seq<(Seq<char>, bool)>, capacity: nat, id: Seq<char>)
    requires
        capacity > 0,
        lookup(s, id) is None,
    ensures
        observe_model(s, capacity, id).1 == Seen::First,
        observe_model(observe_model(s, capacity, id).0, capacity, id).1 == (Seen::Repeat { after_ack: false }),
{
}

/// A notification delivered, acknowledged and delivered again is a repeat
/// from after the acknowledgement.
pub proof fn law_repeat_after_the_ack(s: Seq<(Seq<char>, bool)>, capacity: nat, id: Seq<char>)
    requires
        capacity > 0,
        lookup(s, id) is None,
    ensures
        observe_model(mark_model(observe_model(s, capacity, id).0, id), capacity, id).1 == (Seen::Repeat {
            after_ack: true,
        }),
{
    let s1 = observe_model(s, capacity, id).0;
    let s2 = mark_model(s1, id);
    assert(s2.last() == (id, true));
}

/// The window never holds more ids than its capacity.
pub proof fn law_window_stays_bounded(s: Seq<(Seq<char>, bool)>, capacity: nat, id: Seq<char>)
    requires
        capacity > 0,
        s.len() <= capacity,
    ensures
        observe_model(s, capacity, id).0.len() <= capacity,
{
}

/// A first delivery to a full window evicts exactly the oldest id.
pub proof fn law_window_evicts_oldest_first(s: Seq<(Seq<char>, bool)>, capacity: nat, id: Seq<char>)
    requires
        capacity > 0,
        s.len() == capacity,
        lookup(s, id) is None,
    ensures
        observe_model(s, capacity, id).0 == s.drop_first().push((id, false)),
{
    assert(s.skip(1) =~= s.drop_first());
}

/// Marking an id the window does not hold changes nothing.
pub proof fn law_marking_an_unseen_id_is_a_no_op(s: Seq<(Seq<char>, bool)>, id: Seq<char>)
    requires
        lookup(s, id) is None,
    ensures
        mark_model(s, id) == s,
{
    lemma_lookup_none(s, id);
    assert(mark_model(s, id) =~= s);
}

/// No id occurs twice in the window.
pub open spec fn ids_distinct(s: Seq<(Seq<char>, bool)>) -> bool {
    forall|i: int, j: int| 0 <= i < s.len() && 0 <= j < s.len() && i != j ==> #[trigger] s[i].0 != #[trigger] s[j].0
}

/// A delivery keeps the ids of the window distinct and the window within its
/// capacity: a repeat changes nothing, and a first delivery enters an id the
/// window did not hold, after evicting the oldest ids to make room.
pub proof fn law_window_ids_stay_distinct(s: Seq<(Seq<char>, bool)>, capacity: nat, id: Seq<char>)
    requires
        capacity > 0,
        ids_distinct(s),
        s.len() <= capacity,
    ensures
        ids_distinct(observe_model(s, capacity, id).0),
        observe_model(s, capacity, id).0.len() <= capacity,
{
    if lookup(s, id) is None {
        lemma_lookup_none(s, id);
        let kept = if s.len() >= capacity {
            s.skip(s.len() - capacity + 1)
        } else {
            s
        };
        let k = s.len() - kept.len();
        assert(forall|i: int| 0 <= i < kept.len() ==> #[trigger] kept[i] == s[i + k]);
        let w = kept.push((id, false));
        assert forall|i: int, j: int| 0 <= i < w.len() && 0 <= j < w.len() && i != j implies #[trigger] w[i].0
            != #[trigger] w[j].0 by {
            if i < kept.len() {
                assert(w[i] == s[i + k]);
            }
            if j < kept.len() {
                assert(w[j] == s[j + k]);
            }
        }
    }
}

pub struct SeenWindow {
    capacity: usize,
    window: Vec<(String, bool)>,
}

impl SeenWindow {
    pub closed spec fn capacity(&self) -> nat {
        self.capacity as nat
    }

    /// The ids in the window, oldest first, each with whether it was
    /// acknowledged.
    pub closed spec fn entries(&self) -> Seq<(Seq<char>, bool)> {
        Seq::new(self.window@.len(), |i: int| (self.window@[i].0@, self.window@[i].1))
    }

    /// No id twice, and no more ids than the capacity.
    pub closed spec fn wf(&self) -> bool {
        &&& keys_distinct(self.window@)
        &&& self.window@.len() <= self.capacity
    }

    /// A well-formed window holds no id twice and no more ids than its
    /// capacity.
    pub proof fn lemma_wf(&self)
        requires
            self.wf(),
        ensures
            ids_distinct(self.entries()),
            self.entries().len() <= self.capacity(),
    {
        let e = self.entries();
        assert forall|i: int, j: int| 0 <= i < e.len() && 0 <= j < e.len() && i != j implies #[trigger] e[i].0
            != #[trigger] e[j].0 by {
            assert(e[i].0 == self.window@[i].0@ && e[j].0 == self.window@[j].0@);
        }
    }

    /// An empty window that holds up to `capacity` ids.
    pub fn new(capacity: usize) -> (w: Self)
        ensures
            w.wf(),
            w.capacity() == capacity,
            w.entries().len() == 0,
    {
        SeenWindow { capacity, window: Vec::new() }
    }

    /// The number of ids in the window.
    pub fn len(&self) -> (n: usize)
        ensures
            n == self.entries().len(),
    {
        self.window.len()
    }

    fn find(&self, id: &str) -> (r: Option<usize>)
        requires
            self.wf(),
        ensures
            lookup(self.entries(), id@) == match r {
                Some(i) => Some(self.window@[i as int].1),
                None => None::<bool>,
            },
            r matches Some(i) ==> i < self.window@.len() && self.window@[i as int].0@ == id@,
            r is None ==> forall|j: int| 0 <= j < self.window@.len() ==> #[trigger] self.window@[j].0@ != id@,
    {
        let own = String::from_str(id);
        let mut k: usize = self.window.len();
        assert(self.entries().take(k as int) =~= self.entries());
        while k > 0
            invariant
                k <= self.window@.len(),
                own@ == id@,
                keys_distinct(self.window@),
                forall|j: int| k <= j < self.window@.len() ==> #[trigger] self.window@[j].0@ != id@,
                lookup(self.entries(), id@) == lookup(self.entries().take(k as int), id@),
            decreases k,
        {
            let ghost t = self.entries().take(k as int);
            assert(t.last() == (self.window@[k - 1].0@, self.window@[k - 1].1));
            assert(t.drop_last() == self.entries().take(k - 1));
            if self.window[k - 1].0 == own {
                return Some(k - 1);
            }
            k = k - 1;
        }
        assert(self.entries().take(0).len() == 0);
        None
    }

    /// Records a delivery of `notification_id` and says whether it is the
    /// first, or a repeat from before or after the acknowledgement. A first
    /// delivery evicts the oldest ids to keep the window within its capacity.
    pub fn observe(&mut self, notification_id: &str) -> (seen: Seen)
        requires
            old(self).wf(),
            old(self).capacity() > 0 || lookup(old(self).entries(), notification_id@) is Some,
        ensures
            final(self).wf(),
            final(self).capacity() == old(self).capacity(),
            (final(self).entries(), seen) == observe_model(old(self).entries(), old(self).capacity(), notification_id@),
    {
        match self.find(notification_id) {
            Some(i) => {
                return Seen::Repeat { after_ack: self.window[i].1 };
            },
            None => {},
        }
        let ghost o = self.window@;
        let ghost cap = self.capacity as int;
        while self.window.len() >= self.capacity
            invariant
                self.capacity == cap,
                cap > 0,
                self.window@.len() <= o.len(),
                o.len() >= cap ==> self.window@ == o.skip(o.len() - self.window@.len()),
                o.len() >= cap ==> self.window@.len() >= cap - 1,
                o.len() < cap ==> self.window@ == o,
                keys_distinct(self.window@),
                forall|j: int| 0 <= j < self.window@.len() ==> #[trigger] self.window@[j].0@ != notification_id@,
            decreases self.window@.len(),
        {
            let ghost before = self.window@;
            proof {
                if o.len() >= cap {
                    assert(o.skip(o.len() - before.len()).len() == before.len());
                }
            }
            self.window.remove(0);
            proof {
                assert(self.window@ == before.skip(1));
                if o.len() >= cap {
                    let k = o.len() - before.len();
                    assert(before == o.skip(k));
                    assert forall|j: int| 0 <= j < before.len() - 1 implies #[trigger] o.skip(k + 1)[j] == before.skip(1)[j] by {
                        assert(before[j + 1] == o[k + j + 1]);
                    }
                    assert(o.skip(k + 1) =~= before.skip(1));
                }
                assert forall|a: int, b: int|
                    0 <= a < self.window@.len() && 0 <= b < self.window@.len() && a != b implies #[trigger] self.window@[a].0@
                    != #[trigger] self.window@[b].0@ by {
                    assert(self.window@[a] == before[a + 1] && self.window@[b] == before[b + 1]);
                }
                assert forall|j: int| 0 <= j < self.window@.len() implies #[trigger] self.window@[j].0@ != notification_id@ by {
                    assert(self.window@[j] == before[j + 1]);
                }
            }
        }
        let ghost kept = self.window@;
        self.window.push((String::from_str(notification_id), false));
        proof {
            let w = self.window@;
            assert forall|a: int, b: int|
                0 <= a < w.len() && 0 <= b < w.len() && a != b implies #[trigger] w[a].0@ != #[trigger] w[b].0@ by {
                if a < kept.len() && b < kept.len() {
                    assert(w[a] == kept[a] && w[b] == kept[b]);
                } else if a < kept.len() {
                    assert(w[a] == kept[a]);
                } else if b < kept.len() {
                    assert(w[b] == kept[b]);
                }
            }
            let e = old(self).entries();
            let expected = if e.len() >= cap {
                e.skip(e.len() - cap + 1)
            } else {
                e
            };
            assert(o.len() >= cap ==> kept.len() == cap - 1);
            assert(self.entries() =~= expected.push((notification_id@, false)));
        }
        Seen::First
    }

    /// Marks `notification_id` as acknowledged; an id the window does not
    /// hold is ignored.
    pub fn mark_acked(&mut self, notification_id: &str)
        requires
            old(self).wf(),
        ensures
            final(self).wf(),
            final(self).capacity() == old(self).capacity(),
            final(self).entries() == mark_model(old(self).entries(), notification_id@),
    {
        match self.find(notification_id) {
            Some(i) => {
                let ghost o = self.window@;
                self.window[i].1 = true;
                proof {
                    let w = self.window@;
                    assert forall|a: int, b: int|
                        0 <= a < w.len() && 0 <= b < w.len() && a != b implies #[trigger] w[a].0@ != #[trigger] w[b].0@ by {
                        assert(w[a].0 == o[a].0 && w[b].0 == o[b].0);
                    }
                    assert forall|j: int| 0 <= j < w.len() implies self.entries()[j] == mark_model(old(self).entries(), notification_id@)[j] by {
                        if j != i {
                            assert(o[j].0@ != o[i as int].0@);
                        }
                    }
                    assert(self.entries() =~= mark_model(old(self).entries(), notification_id@));
                }
            },
            None => {
                assert(self.entries() =~= mark_model(old(self).entries(), notification_id@));
            },
        }
    }
}

} // verus!
