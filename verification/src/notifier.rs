//! The Outbound Notifier: one serialized writer per remote connection.
//! Several producers enqueue frames; a single consumer drains them and writes
//! them strictly in enqueue order, the only cross-producer ordering the
//! system guarantees.
use vstd::prelude::*;

use crate::store::{DbReply, TraceError};

verus! {

/// One outbound frame: the reply to a request, or an unsolicited completion
/// notice for a trace execution.
pub enum Frame {
    Reply(Result<DbReply, TraceError>),
    Notice { name: String, success: bool },
}

/// The per-connection outbound queue with its delivery history.
pub struct OutboundNotifier {
    queue: Vec<Frame>,
    history: Ghost<Seq<Frame>>,
}

impl OutboundNotifier {
    /// Frames enqueued so far, oldest first.
    pub closed spec fn enqueued(&self) -> Seq<Frame> {
        self.history@
    }

    /// Frames enqueued but not yet written.
    pub closed spec fn pending(&self) -> Seq<Frame> {
        self.queue@
    }

    /// Frames already written to the connection, oldest first.
    pub open spec fn delivered(&self) -> Seq<Frame> {
        self.enqueued().take(self.enqueued().len() - self.pending().len())
    }

    /// The pending frames are exactly the tail of what was enqueued: nothing
    /// is written out of order, duplicated or dropped.
    pub open spec fn wf(&self) -> bool {
        &&& self.pending().len() <= self.enqueued().len()
        &&& self.pending() == self.enqueued().skip(
            self.enqueued().len() - self.pending().len(),
        )
    }

    pub fn new() -> (r: Self)
        ensures
            r.wf(),
            r.enqueued() == Seq::<Frame>::empty(),
            r.pending() == Seq::<Frame>::empty(),
    {
        let r = OutboundNotifier { queue: Vec::new(), history: Ghost(Seq::empty()) };
        proof {
            assert(r.pending() =~= r.enqueued().skip(0));
        }
        r
    }

    /// A producer hands a frame to the writer.
    pub fn enqueue(&mut self, f: Frame)
        requires
            old(self).wf(),
        ensures
            final(self).wf(),
            final(self).enqueued() == old(self).enqueued().push(f),
            final(self).pending() == old(self).pending().push(f),
            final(self).delivered() == old(self).delivered(),
    {
        proof {
            self.history@ = self.history@.push(f);
        }
        self.queue.push(f);
        proof {
            let n = self.enqueued().len() - self.pending().len();
            assert(self.pending() =~= self.enqueued().skip(n));
            assert(self.delivered() =~= old(self).delivered());
        }
    }

    /// The single consumer takes the oldest pending frame to write it.
    pub fn take_next(&mut self) -> (r: Option<Frame>)
        requires
            old(self).wf(),
        ensures
            final(self).wf(),
            final(self).enqueued() == old(self).enqueued(),
            old(self).pending().len() == 0 ==> r is None && final(self).pending() == old(
                self,
            ).pending(),
            old(self).pending().len() > 0 ==> {
                &&& r == Some(old(self).pending()[0])
                &&& final(self).pending() == old(self).pending().drop_first()
                &&& final(self).delivered() == old(self).delivered().push(old(self).pending()[0])
            },
    {
        if self.queue.len() == 0 {
            None
        } else {
            let f = self.queue.remove(0);
            proof {
                assert(self.pending() =~= old(self).pending().drop_first());
                let n = self.enqueued().len() - self.pending().len();
                assert(self.pending() =~= self.enqueued().skip(n));
                assert(self.delivered() =~= old(self).delivered().push(old(self).pending()[0]));
            }
            Some(f)
        }
    }
}

/// Law: the writer delivers frames exactly in enqueue order — what has been
/// written is always a prefix of what was enqueued, and what is still pending
/// is exactly the rest of it.
pub proof fn lemma_in_order_delivery(n: OutboundNotifier)
    requires
        n.wf(),
    ensures
        n.delivered() + n.pending() == n.enqueued(),
        n.delivered() == n.enqueued().take(n.delivered().len() as int),
{
    assert(n.delivered() + n.pending() =~= n.enqueued());
}

} // verus!
