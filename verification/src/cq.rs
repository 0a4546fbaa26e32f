//! A message queue of three places.

use crate::sem::Sem;
use vstd::prelude::*;

verus! {

/// A queue of characters with room for a fixed number of them.
pub trait MessageQueue {
    /// What the queue needs to work.
    spec fn wf(&self) -> bool;

    /// The messages in the queue, the oldest first.
    spec fn messages(&self) -> Seq<char>;

    /// How many messages the queue has room for.
    spec fn capacity(&self) -> nat;

    /// Puts `msg` in the queue unless the queue is full, and says whether
    /// it did.
    fn send(&mut self, msg: char) -> (sent: bool)
        requires
            old(self).wf(),
        ensures
            final(self).wf(),
            final(self).capacity() == old(self).capacity(),
            sent == (old(self).messages().len() < old(self).capacity()),
            sent ==> final(self).messages() == old(self).messages().push(msg),
            !sent ==> final(self).messages() == old(self).messages(),
    ;

    /// Takes the oldest message out of the queue, if there is one.
    fn recv(&mut self) -> (msg: Option<char>)
        requires
            old(self).wf(),
        ensures
            final(self).wf(),
            final(self).capacity() == old(self).capacity(),
            old(self).messages().len() == 0 ==> msg.is_none() && final(self).messages() == old(
                self,
            ).messages(),
            old(self).messages().len() > 0 ==> msg == Some(old(self).messages()[0])
                && final(self).messages() == old(self).messages().drop_first(),
    ;
}

/// The message queue: a buffer, the count of its free places, and the
/// lock of its readers.
pub struct Mq {
    buf: Vec<char>,
    sem: Sem<3>,
    rx_lock: Sem<1>,
    sz: usize,
}

impl Mq {
    /// The empty queue of three places.
    pub fn new() -> (q: Self)
        ensures
            q.wf(),
            q.messages() == Seq::<char>::empty(),
            q.capacity() == 3,
    {
        let sz: usize = 3;
        Self { buf: Vec::with_capacity(sz), sem: Sem::from(3), rx_lock: Sem::from(1), sz }
    }

    fn is_full(&self) -> (r: bool)
        requires
            self.wf(),
        ensures
            r == (self.messages().len() == self.capacity()),
    {
        self.sem.status() == 0
    }

    /// Whether the queue holds no message.
    pub fn is_empty(&self) -> (r: bool)
        requires
            self.wf(),
        ensures
            r == (self.messages().len() == 0),
    {
        self.sem.status() == 3
    }
}

impl MessageQueue for Mq {
    closed spec fn wf(&self) -> bool {
        &&& self.sz == 3
        &&& self.buf@.len() <= 3
        &&& self.sem.count() == 3 - self.buf@.len()
        &&& self.rx_lock.count() == 1
    }

    closed spec fn messages(&self) -> Seq<char> {
        self.buf@
    }

    closed spec fn capacity(&self) -> nat {
        self.sz as nat
    }

    fn send(&mut self, msg: char) -> (sent: bool) {
        if self.is_full() {
            return false;
        }
        self.sem.wait();
        self.buf.push(msg);
        true
    }

    fn recv(&mut self) -> (msg: Option<char>) {
        self.rx_lock.wait();
        if self.sem.status() == 3 {
            self.rx_lock.signal();
            return None;
        }
        let msg = self.buf.remove(0);
        self.sem.signal();
        self.rx_lock.signal();
        assert(self.buf@ =~= old(self).buf@.drop_first());
        Some(msg)
    }
}

} // verus!
