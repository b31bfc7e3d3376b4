//! A stream for tests that must not be polled after it has ended.
//!
//! This module holds the state of the stream and what a poll does to it; waking the
//! task that waits for the stream is the caller's.

use std::collections::VecDeque;
use vstd::prelude::*;

verus! {

/// What a poll of the stream gives.
#[derive(Debug)]
pub enum Polled<T> {
    /// The stream is paused: the caller is to be woken when it is resumed.
    Pending,
    /// The next item.
    Item(T),
    /// The stream has ended.
    End,
}

/// A stream of items that can be paused.
#[derive(Debug)]
pub struct TestStream<T> {
    /// The items that the stream has still to give, the next first.
    items: VecDeque<T>,
    /// Whether the stream has ended. It must not be polled any more once it has.
    finished: bool,
    /// Whether the stream is paused.
    paused: bool,
}

impl<T> TestStream<T> {
    /// The items that the stream has still to give, the next first.
    pub closed spec fn items(&self) -> Seq<T> {
        self.items@
    }

    /// Whether the stream has ended.
    pub closed spec fn finished(&self) -> bool {
        self.finished
    }

    /// Whether the stream is paused.
    pub closed spec fn paused(&self) -> bool {
        self.paused
    }

    /// Creates a stream of the items, which is neither paused nor ended.
    pub fn new(items: Vec<T>) -> (stream: TestStream<T>)
        ensures
            stream.items() == items@,
            !stream.finished(),
            !stream.paused(),
    {
        let mut items = items;
        let ghost all = items@;
        let mut queue: VecDeque<T> = VecDeque::new();
        while items.len() > 0
            invariant
                queue@ + items@ == all,
            decreases items.len(),
        {
            let ghost earlier = queue@;
            let ghost rest = items@;
            let item = items.remove(0);
            queue.push_back(item);
            proof {
                assert(queue@ + items@ =~= earlier + rest);
            }
        }
        proof {
            assert(queue@ + items@ =~= queue@);
        }
        TestStream { items: queue, finished: false, paused: false }
    }

    /// Sets whether the stream is paused. Returns whether the stream was resumed,
    /// so that the task that waits for it is to be woken.
    pub fn set_paused(&mut self, paused: bool) -> (resumed: bool)
        ensures
            resumed == (old(self).paused() && !paused),
            final(self).paused() == paused,
            final(self).items() == old(self).items(),
            final(self).finished() == old(self).finished(),
    {
        let resumed = self.paused && !paused;
        self.paused = paused;
        resumed
    }

    /// Polls the stream: a paused stream gives nothing; otherwise the next item is
    /// given, or the stream ends. A stream that has ended and is not paused must
    /// not be polled.
    pub fn poll_next(&mut self) -> (polled: Polled<T>)
        requires
            old(self).paused() || !old(self).finished(),
        ensures
            final(self).paused() == old(self).paused(),
            old(self).paused() ==> polled is Pending && final(self).items() == old(self).items()
                && final(self).finished() == old(self).finished(),
            !old(self).paused() && old(self).items().len() > 0 ==> polled == Polled::Item(
                old(self).items()[0],
            ) && final(self).items() == old(self).items().skip(1) && !final(self).finished(),
            !old(self).paused() && old(self).items().len() == 0
                ==> polled is End && final(self).finished() && final(self).items().len() == 0,
    {
        if self.paused {
            return Polled::Pending;
        }
        match self.items.pop_front() {
            Some(item) => {
                proof {
                    assert(self.items@ =~= old(self).items@.skip(1));
                }
                Polled::Item(item)
            },
            None => {
                // From now on the stream must not be polled.
                self.finished = true;
                Polled::End
            },
        }
    }
}

} // verus!
