//! Process-wide broadcast of "the ledger changed" signals, without backlog.
use vstd::prelude::*;

verus! {

/// One registered observer and the number of change signals it has not taken yet.
#[derive(Clone, Copy, Debug, PartialEq, Eq, Structural)]
pub struct Subscriber {
    pub id: u64,
    pub pending: u64,
}

/// What one broadcast does to an observer's count: one more signal, dropped when the
/// count cannot grow any further.
pub open spec fn bumped(s: Subscriber) -> Subscriber {
    Subscriber { id: s.id, pending: if s.pending == u64::MAX { s.pending } else { (s.pending + 1) as u64 } }
}

/// The registry of observers. Publishing never waits on an observer: it only counts.
pub struct ChangeNotifier {
    subscribers: Vec<Subscriber>,
    next_id: u64,
}

impl View for ChangeNotifier {
    type V = Seq<Subscriber>;

    closed spec fn view(&self) -> Seq<Subscriber> {
        self.subscribers@
    }
}

impl ChangeNotifier {
    /// Registered ids are increasing, so unique, and below the next one to hand out.
    pub closed spec fn wf(&self) -> bool {
        &&& forall|i: int, j: int|
            0 <= i < j < self.subscribers@.len() ==> self.subscribers@[i].id
                < self.subscribers@[j].id
        &&& forall|i: int| 0 <= i < self.subscribers@.len() ==> self.subscribers@[i].id < self.next_id
    }

    /// The id that the next registration hands out.
    pub closed spec fn next_id(&self) -> u64 {
        self.next_id
    }

    /// Whether an id is left for another registration.
    pub open spec fn ids_left(&self) -> bool {
        self.next_id() < u64::MAX
    }

    pub fn new() -> (r: ChangeNotifier)
        ensures
            r.wf(),
            r.next_id() == 0,
            r@ == Seq::<Subscriber>::empty(),
    {
        ChangeNotifier { subscribers: Vec::new(), next_id: 0 }
    }

    /// Registers a new observer, which sees only signals published from now on. Gives
    /// `None` once every id has been handed out.
    pub fn subscribe(&mut self) -> (r: Option<u64>)
        requires
            old(self).wf(),
        ensures
            final(self).wf(),
            r is None <==> !old(self).ids_left(),
            r matches Some(id) ==> id == old(self).next_id() && final(self).next_id() == id + 1,
            r is None ==> final(self).next_id() == old(self).next_id(),
            r matches Some(id) ==> final(self)@ == old(self)@.push(Subscriber { id, pending: 0 })
                && forall|i: int| 0 <= i < old(self)@.len() ==> old(self)@[i].id != id,
            r is None ==> final(self)@ == old(self)@,
    {
        if self.next_id == u64::MAX {
            return None;
        }
        let id = self.next_id;
        self.subscribers.push(Subscriber { id, pending: 0 });
        self.next_id = self.next_id + 1;
        Some(id)
    }

    fn find(&self, id: u64) -> (r: Option<usize>)
        ensures
            r matches Some(i) ==> i < self@.len() && self@[i as int].id == id,
            r is None ==> forall|i: int| 0 <= i < self@.len() ==> self@[i].id != id,
    {
        let mut i: usize = 0;
        while i < self.subscribers.len()
            invariant
                i <= self.subscribers@.len(),
                forall|k: int| 0 <= k < i ==> self.subscribers@[k].id != id,
            decreases self.subscribers@.len() - i,
        {
            if self.subscribers[i].id == id {
                return Some(i);
            }
            i = i + 1;
        }
        None
    }

    /// Removes an observer; gives whether it was registered.
    pub fn unsubscribe(&mut self, id: u64) -> (r: bool)
        requires
            old(self).wf(),
        ensures
            final(self).wf(),
            final(self).next_id() == old(self).next_id(),
            r == exists|i: int| 0 <= i < old(self)@.len() && old(self)@[i].id == id,
            r ==> exists|i: int|
                0 <= i < old(self)@.len() && old(self)@[i].id == id && final(self)@ == old(
                    self,
                )@.remove(i),
            !r ==> final(self)@ == old(self)@,
    {
        match self.find(id) {
            Some(i) => {
                self.subscribers.remove(i);
                true
            },
            None => false,
        }
    }

    /// Hands one change signal to every registered observer.
    pub fn publish(&mut self)
        requires
            old(self).wf(),
        ensures
            final(self).wf(),
            final(self).next_id() == old(self).next_id(),
            final(self)@.len() == old(self)@.len(),
            forall|i: int| 0 <= i < old(self)@.len() ==> final(self)@[i] == bumped(old(self)@[i]),
    {
        let n = self.subscribers.len();
        let mut i: usize = 0;
        while i < n
            invariant
                n == old(self)@.len(),
                self.next_id == old(self).next_id,
                self.subscribers@.len() == n,
                i <= n,
                forall|k: int| 0 <= k < i ==> self.subscribers@[k] == bumped(old(self)@[k]),
                forall|k: int| i <= k < n ==> self.subscribers@[k] == old(self)@[k],
            decreases n - i,
        {
            let s = self.subscribers[i];
            let pending = if s.pending == u64::MAX { s.pending } else { s.pending + 1 };
            self.subscribers.set(i, Subscriber { id: s.id, pending });
            i = i + 1;
        }
    }

    /// Takes the signals pending for an observer: gives their number and clears it, or
    /// `None` for an id that is not registered.
    pub fn take(&mut self, id: u64) -> (r: Option<u64>)
        requires
            old(self).wf(),
        ensures
            final(self).wf(),
            final(self).next_id() == old(self).next_id(),
            final(self)@.len() == old(self)@.len(),
            r is None <==> forall|i: int| 0 <= i < old(self)@.len() ==> old(self)@[i].id != id,
            r is None ==> final(self)@ == old(self)@,
            r matches Some(n) ==> exists|i: int|
                0 <= i < old(self)@.len() && old(self)@[i].id == id && n == old(self)@[i].pending
                    && final(self)@ == old(self)@.update(i, Subscriber { id, pending: 0 }),
    {
        match self.find(id) {
            Some(i) => {
                let n = self.subscribers[i].pending;
                self.subscribers.set(i, Subscriber { id, pending: 0 });
                Some(n)
            },
            None => None,
        }
    }
}

} // verus!
