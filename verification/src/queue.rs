//! A queue that can be closed: what was pushed before comes out in order, and
//! nothing more goes in.

use std::collections::VecDeque;
use vstd::prelude::*;

verus! {

/// What a reader of the queue gets.
pub enum Next<T> {
    /// The oldest item.
    Item(T),
    /// Nothing yet: more may come.
    Wait,
    /// Nothing any more.
    End,
}

/// A queue that can be closed.
pub struct Pushable<T> {
    queue: VecDeque<T>,
    closed: bool,
}

/// The items that wait, oldest first, and whether the queue is closed.
pub struct QueueView<T> {
    pub items: Seq<T>,
    pub closed: bool,
}

/// The queue after an item was pushed: a closed one takes nothing.
pub open spec fn pushed<T>(q: QueueView<T>, item: T) -> QueueView<T> {
    if q.closed {
        q
    } else {
        QueueView { items: q.items.push(item), closed: false }
    }
}

/// What a reader gets: the oldest item, else whether to wait.
pub open spec fn taken<T>(q: QueueView<T>) -> Next<T> {
    if q.items.len() > 0 {
        Next::Item(q.items[0])
    } else if q.closed {
        Next::End
    } else {
        Next::Wait
    }
}

/// The queue after a reader asked `n` times.
pub open spec fn after_taking<T>(q: QueueView<T>, n: nat) -> QueueView<T>
    decreases n,
{
    if n == 0 {
        q
    } else {
        let before = after_taking(q, (n - 1) as nat);
        if before.items.len() > 0 {
            QueueView { items: before.items.drop_first(), closed: before.closed }
        } else {
            before
        }
    }
}

proof fn lemma_after_taking<T>(q: QueueView<T>, n: nat)
    ensures
        after_taking(q, n).closed == q.closed,
        after_taking(q, n).items == if n < q.items.len() {
            q.items.skip(n as int)
        } else {
            Seq::empty()
        },
    decreases n,
{
    if n == 0 {
        assert(q.items.skip(0) =~= q.items);
        if q.items.len() == 0 {
            assert(q.items =~= Seq::empty());
        }
    } else {
        lemma_after_taking(q, (n - 1) as nat);
        if n - 1 < q.items.len() {
            let rest = q.items.skip(n - 1).drop_first();
            if n < q.items.len() {
                assert(rest =~= q.items.skip(n as int));
            } else {
                assert(rest =~= Seq::empty());
            }
        }
    }
}

/// What was pushed comes out in that order, each item once; then a closed queue
/// is at its end, and an open one makes its reader wait.
pub proof fn law_first_in_first_out<T>(q: QueueView<T>, n: nat)
    ensures
        taken(after_taking(q, n)) == if n < q.items.len() {
            Next::Item(q.items[n as int])
        } else if q.closed {
            Next::<T>::End
        } else {
            Next::<T>::Wait
        },
{
    lemma_after_taking(q, n);
}

/// Nothing goes into a closed queue.
pub proof fn law_closed_queue_stays<T>(q: QueueView<T>, item: T)
    requires
        q.closed,
    ensures
        pushed(q, item) == q,
{
}

impl<T> View for Pushable<T> {
    type V = QueueView<T>;

    closed spec fn view(&self) -> QueueView<T> {
        QueueView { items: self.queue@, closed: self.closed }
    }
}

impl<T> Pushable<T> {
    pub fn new() -> (r: Self)
        ensures
            r@ == (QueueView { items: Seq::<T>::empty(), closed: false }),
    {
        Pushable { queue: VecDeque::new(), closed: false }
    }

    /// Adds an item, unless the queue is closed; says whether it was added.
    pub fn push(&mut self, item: T) -> (r: bool)
        ensures
            r == !old(self)@.closed,
            final(self)@ == pushed(old(self)@, item),
    {
        if self.closed {
            return false;
        }
        self.queue.push_back(item);
        true
    }

    /// Closes the queue. What waits in it can still be taken.
    pub fn close(&mut self)
        ensures
            final(self)@ == (QueueView { items: old(self)@.items, closed: true }),
    {
        self.closed = true;
    }

    pub fn is_closed(&self) -> (r: bool)
        ensures
            r == self@.closed,
    {
        self.closed
    }

    /// Takes the oldest item, if there is one; else says whether to wait.
    pub fn next(&mut self) -> (r: Next<T>)
        ensures
            r == taken(old(self)@),
            final(self)@ == after_taking(old(self)@, 1),
    {
        proof {
            reveal_with_fuel(after_taking, 2);
        }
        match self.queue.pop_front() {
            Some(item) => Next::Item(item),
            None => if self.closed {
                Next::End
            } else {
                Next::Wait
            },
        }
    }
}

impl<T> Default for Pushable<T> {
    fn default() -> (r: Self)
        ensures
            r@ == (QueueView { items: Seq::<T>::empty(), closed: false }),
    {
        Pushable::new()
    }
}

// ---------------------------------------------------------------------------
// Laws
// ---------------------------------------------------------------------------


/// What is pushed into an open queue comes behind all that is there; reading
/// takes the oldest item and leaves the others in their order.
pub proof fn law_push_then_take<T>(q: QueueView<T>, item: T)
    ensures
        !q.closed ==> pushed(q, item).items == q.items.push(item) && !pushed(q, item).closed,
        q.items.len() > 0 ==> taken(q) == Next::Item(q.items[0]) && after_taking(q, 1).items
            == q.items.skip(1) && after_taking(q, 1).closed == q.closed,
        q.items.len() == 0 ==> after_taking(q, 1) == q,
{
    reveal_with_fuel(after_taking, 2);
    if q.items.len() > 0 {
        assert(q.items.drop_first() =~= q.items.skip(1));
    }
}

} // verus!
