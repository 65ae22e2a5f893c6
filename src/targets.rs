use std::collections::VecDeque;
use vstd::prelude::*;

verus! {

/// The front of a queue, if any.
pub open spec fn front(s: Seq<usize>) -> Option<usize> {
    if s.len() > 0 {
        Some(s[0])
    } else {
        None
    }
}

/// A queue after `x` was added: unchanged if `x` is queued already, else with
/// `x` at the back.
pub open spec fn added(s: Seq<usize>, x: usize) -> Seq<usize> {
    if s.contains(x) {
        s
    } else {
        s.push(x)
    }
}

/// A queue after its front was dropped; an empty queue stays empty.
pub open spec fn advanced(s: Seq<usize>) -> Seq<usize> {
    if s.len() > 0 {
        s.drop_first()
    } else {
        s
    }
}

/// Adding a target that was just added leaves the queue as it is, and so its
/// length too.
pub proof fn lemma_add_target_twice(s: Seq<usize>, x: usize)
    ensures
        added(added(s, x), x) == added(s, x),
        added(added(s, x), x).len() == added(s, x).len(),
{
    if !s.contains(x) {
        assert(s.push(x)[s.len() as int] == x);
    }
    assert(added(s, x).contains(x));
}

/// Advancing a duplicate-free queue removes exactly the target that `front`
/// showed: it is gone, and the rest keep their order.
pub proof fn lemma_advance_removes_front(s: Seq<usize>)
    requires
        s.no_duplicates(),
        s.len() > 0,
    ensures
        front(s) == Some(s[0]),
        !advanced(s).contains(s[0]),
        advanced(s) == s.subrange(1, s.len() as int),
        advanced(s).len() == s.len() - 1,
{
    if advanced(s).contains(s[0]) {
        let k = choose|k: int| 0 <= k < advanced(s).len() && advanced(s)[k] == s[0];
        assert(s[k + 1] == s[0]);
    }
}

/// The ordered, duplicate-free queue of targets of one unit: the order of
/// insertion is the order of priority, and the front is the current target.
pub struct Targets {
    deque: VecDeque<usize>,
}

impl View for Targets {
    type V = Seq<usize>;

    closed spec fn view(&self) -> Seq<usize> {
        self.deque@
    }
}

impl Targets {
    /// No entity occurs twice in the queue.
    pub open spec fn wf(&self) -> bool {
        self@.no_duplicates()
    }

    pub fn new() -> (r: Targets)
        ensures
            r@ == Seq::<usize>::empty(),
            r.wf(),
    {
        Targets { deque: VecDeque::new() }
    }

    pub fn clear(&mut self)
        ensures
            final(self)@ == Seq::<usize>::empty(),
            final(self).wf(),
    {
        self.deque.clear();
    }

    /// The current target: the front of the queue, if any. The queue is not changed.
    pub fn get_target(&self) -> (r: Option<usize>)
        ensures
            r == front(self@),
    {
        if self.deque.len() > 0 {
            Some(self.deque[0])
        } else {
            None
        }
    }

    /// Drops the front of the queue, if any.
    pub fn move_to_next(&mut self)
        requires
            old(self).wf(),
        ensures
            final(self).wf(),
            final(self)@ == advanced(old(self)@),
    {
        if self.deque.len() > 0 {
            self.deque.pop_front();
            assert(self.deque@ =~= old(self).deque@.drop_first());
        }
    }

    /// A copy of the whole queue, front first.
    pub fn get_all(&self) -> (r: Vec<usize>)
        ensures
            r@ == self@,
    {
        let mut r: Vec<usize> = Vec::new();
        let n = self.deque.len();
        let mut i: usize = 0;
        while i < n
            invariant
                n == self.deque@.len(),
                i <= n,
                r@ == self.deque@.subrange(0, i as int),
            decreases n - i,
        {
            r.push(self.deque[i]);
            i = i + 1;
            assert(r@ =~= self.deque@.subrange(0, i as int));
        }
        assert(r@ =~= self.deque@);
        r
    }

    pub fn len(&self) -> (r: usize)
        ensures
            r == self@.len(),
    {
        self.deque.len()
    }

    /// Appends `new_target` at the back unless it is already queued.
    pub fn add_target(&mut self, new_target: usize)
        requires
            old(self).wf(),
        ensures
            final(self).wf(),
            final(self)@ == added(old(self)@, new_target),
    {
        let n = self.deque.len();
        let mut i: usize = 0;
        while i < n
            invariant
                n == self.deque@.len(),
                self@ == old(self)@,
                self.wf(),
                i <= n,
                forall|j: int| 0 <= j < i ==> self.deque@[j] != new_target,
            decreases n - i,
        {
            if self.deque[i] == new_target {
                assert(self@.contains(new_target));
                return;
            }
            i = i + 1;
        }
        self.deque.push_back(new_target);
    }
}

} // verus!
