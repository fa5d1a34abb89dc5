//! The message queue model: the fixed queue set, one entry per message
//! identifier with its context and body halves, atomic writes, moves and
//! removals, and the uniqueness of an identifier across all queues.

use vstd::prelude::*;

verus! {

/// The fixed set of queues under the spool root.
#[derive(Clone, Copy, PartialEq, Eq, Structural, Debug)]
pub enum QueueID {
    Working,
    Deliver,
    Deferred,
    Dead,
    Delegated,
}

/// One message's presence in the spool: the queue that owns it, and which
/// of its two files are present. An entry with only one file is a
/// half-written remainder; readers treat it as absent.
pub struct QueueEntry {
    pub uuid: u128,
    pub queue: QueueID,
    pub has_ctx: bool,
    pub has_eml: bool,
    pub retry: u64,
}

/// Errors of the queue manager.
#[derive(Clone, Copy, PartialEq, Eq, Structural, Debug)]
pub enum QueueError {
    /// The identifier is in no queue, or not in the named one.
    NotFound,
    /// Only one of the two files is present.
    Orphan,
    /// The identifier already lives in another queue.
    AlreadyQueued,
}

/// The spool: every message entry, in arrival order.
pub struct QueueManager {
    pub entries: Vec<QueueEntry>,
}

impl QueueManager {
    /// Queue uniqueness: no identifier has two entries, so a message is in
    /// at most one queue at any instant.
    pub open spec fn inv(self) -> bool {
        forall|i: int, j: int|
            0 <= i < self.entries@.len() && 0 <= j < self.entries@.len() && i != j ==> (
            #[trigger] self.entries@[i]).uuid != (#[trigger] self.entries@[j]).uuid
    }

    /// The index of the identifier's entry, if any.
    pub open spec fn find_spec(self, uuid: u128) -> Option<int> {
        if exists|i: int| 0 <= i < self.entries@.len() && (#[trigger] self.entries@[i]).uuid == uuid {
            Some(
                choose|i: int|
                    0 <= i < self.entries@.len() && (#[trigger] self.entries@[i]).uuid == uuid,
            )
        } else {
            None
        }
    }

    /// Whether the spool holds any trace of the identifier.
    pub open spec fn holds(self, uuid: u128) -> bool {
        exists|i: int| 0 <= i < self.entries@.len() && (#[trigger] self.entries@[i]).uuid == uuid
    }

    /// A valid entry of `q`: both files present.
    pub open spec fn in_queue(self, q: QueueID, uuid: u128) -> bool {
        exists|i: int|
            {
                &&& 0 <= i < self.entries@.len()
                &&& (#[trigger] self.entries@[i]).uuid == uuid
                &&& self.entries@[i].queue == q
                &&& self.entries@[i].has_ctx
                &&& self.entries@[i].has_eml
            }
    }

    /// Queue uniqueness, spelled out: a message identifier present in two
    /// queues means the two are the same queue.
    pub proof fn lemma_uuid_in_one_queue(self, uuid: u128, q1: QueueID, q2: QueueID)
        requires
            self.inv(),
            self.in_queue(q1, uuid),
            self.in_queue(q2, uuid),
        ensures
            q1 == q2,
    {
        let i = choose|i: int|
            {
                &&& 0 <= i < self.entries@.len()
                &&& (#[trigger] self.entries@[i]).uuid == uuid
                &&& self.entries@[i].queue == q1
                &&& self.entries@[i].has_ctx
                &&& self.entries@[i].has_eml
            };
        let j = choose|j: int|
            {
                &&& 0 <= j < self.entries@.len()
                &&& (#[trigger] self.entries@[j]).uuid == uuid
                &&& self.entries@[j].queue == q2
                &&& self.entries@[j].has_ctx
                &&& self.entries@[j].has_eml
            };
        assert(i == j);
    }

    /// An empty spool.
    pub fn new() -> (r: QueueManager)
        ensures
            r.inv(),
            r.entries@.len() == 0,
    {
        QueueManager { entries: Vec::new() }
    }

    fn find(&self, uuid: u128) -> (r: Option<usize>)
        ensures
            match r {
                Some(i) => i < self.entries@.len() && self.entries@[i as int].uuid == uuid,
                None => !self.holds(uuid),
            },
    {
        let mut i: usize = 0;
        while i < self.entries.len()
            invariant
                i <= self.entries@.len(),
                forall|j: int| 0 <= j < i ==> (#[trigger] self.entries@[j]).uuid != uuid,
            decreases self.entries@.len() - i,
        {
            if self.entries[i].uuid == uuid {
                return Some(i);
            }
            i = i + 1;
        }
        None
    }

    /// Writes the context and body of a message into a queue: afterwards
    /// both files are present there, or an error reports an identifier that
    /// already lives in another queue and nothing has changed. Rewriting a
    /// message in its own queue completes a half-written entry.
    pub fn write_both(&mut self, q: QueueID, uuid: u128, retry: u64) -> (r: Result<(), QueueError>)
        requires
            old(self).inv(),
        ensures
            final(self).inv(),
            match r {
                Ok(()) => {
                    &&& final(self).in_queue(q, uuid)
                    &&& final(self).find_spec(uuid) is Some
                    &&& forall|u: u128|
                        u != uuid ==> (final(self).holds(u) <==> old(self).holds(u))
                    &&& forall|u: u128, p: QueueID|
                        u != uuid ==> (final(self).in_queue(p, u) <==> old(self).in_queue(p, u))
                },
                Err(e) => {
                    &&& e == QueueError::AlreadyQueued
                    &&& *final(self) == *old(self)
                    &&& exists|i: int|
                        0 <= i < old(self).entries@.len() && (#[trigger] old(
                            self,
                        ).entries@[i]).uuid == uuid && old(self).entries@[i].queue != q
                },
            },
    {
        match self.find(uuid) {
            Some(i) => {
                if queue_eq(self.entries[i].queue, q) {
                    let ghost before = self.entries@;
                    let e = QueueEntry { uuid, queue: q, has_ctx: true, has_eml: true, retry };
                    self.entries.set(i, e);
                    proof {
                        assert(self.entries@[i as int].uuid == uuid);
                        assert(self.in_queue(q, uuid));
                        assert(self.holds(uuid));
                        assert forall|u: u128| u != uuid implies (self.holds(u) <==> old(
                            self,
                        ).holds(u)) by {
                            assert forall|j: int|
                                0 <= j < before.len() implies self.entries@[j].uuid
                                == before[j].uuid by {}
                        }
                        assert forall|u: u128, p: QueueID|
                            u != uuid implies (self.in_queue(p, u) <==> old(
                            self,
                        ).in_queue(p, u)) by {
                            if old(self).in_queue(p, u) {
                                let j = choose|j: int|
                                    {
                                        &&& 0 <= j < before.len()
                                        &&& (#[trigger] before[j]).uuid == u
                                        &&& before[j].queue == p
                                        &&& before[j].has_ctx
                                        &&& before[j].has_eml
                                    };
                                assert(self.entries@[j] == before[j]);
                            }
                            if self.in_queue(p, u) {
                                let j = choose|j: int|
                                    {
                                        &&& 0 <= j < self.entries@.len()
                                        &&& (#[trigger] self.entries@[j]).uuid == u
                                        &&& self.entries@[j].queue == p
                                        &&& self.entries@[j].has_ctx
                                        &&& self.entries@[j].has_eml
                                    };
                                assert(before[j] == self.entries@[j]);
                            }
                        }
                    }
                    Ok(())
                } else {
                    Err(QueueError::AlreadyQueued)
                }
            },
            None => {
                let ghost before = self.entries@;
                self.entries.push(QueueEntry { uuid, queue: q, has_ctx: true, has_eml: true, retry });
                proof {
                    assert(self.entries@.last().uuid == uuid);
                    assert(self.in_queue(q, uuid));
                    assert(self.holds(uuid));
                    assert forall|u: u128| u != uuid implies (self.holds(u) <==> old(
                        self,
                    ).holds(u)) by {
                        if self.holds(u) {
                            let j = choose|j: int|
                                0 <= j < self.entries@.len() && (#[trigger] self.entries@[j]).uuid
                                    == u;
                            assert(j < before.len());
                            assert(before[j].uuid == u);
                        }
                        if old(self).holds(u) {
                            let j = choose|j: int|
                                0 <= j < before.len() && (#[trigger] before[j]).uuid == u;
                            assert(self.entries@[j].uuid == u);
                        }
                    }
                    assert forall|u: u128, p: QueueID|
                        u != uuid implies (self.in_queue(p, u) <==> old(self).in_queue(
                        p,
                        u,
                    )) by {
                        if self.in_queue(p, u) {
                            let j = choose|j: int|
                                {
                                    &&& 0 <= j < self.entries@.len()
                                    &&& (#[trigger] self.entries@[j]).uuid == u
                                    &&& self.entries@[j].queue == p
                                    &&& self.entries@[j].has_ctx
                                    &&& self.entries@[j].has_eml
                                };
                            assert(j < before.len());
                            assert(before[j] == self.entries@[j]);
                        }
                        if old(self).in_queue(p, u) {
                            let j = choose|j: int|
                                {
                                    &&& 0 <= j < before.len()
                                    &&& (#[trigger] before[j]).uuid == u
                                    &&& before[j].queue == p
                                    &&& before[j].has_ctx
                                    &&& before[j].has_eml
                                };
                            assert(self.entries@[j] == before[j]);
                        }
                    }
                }
                Ok(())
            },
        }
    }
}

proof fn lemma_update_frame(a: QueueManager, b: QueueManager, i: int, uuid: u128)
    requires
        0 <= i < a.entries@.len(),
        b.entries@ =~= a.entries@.update(i, b.entries@[i]),
        a.entries@[i].uuid == uuid,
        b.entries@[i].uuid == uuid,
    ensures
        forall|u: u128| u != uuid ==> (a.holds(u) <==> b.holds(u)),
        forall|u: u128, p: QueueID| u != uuid ==> (a.in_queue(p, u) <==> b.in_queue(p, u)),
{
    assert forall|u: u128| u != uuid implies (a.holds(u) <==> b.holds(u)) by {
        if a.holds(u) {
            let j = choose|j: int| 0 <= j < a.entries@.len() && (#[trigger] a.entries@[j]).uuid == u;
            assert(b.entries@[j].uuid == u);
        }
        if b.holds(u) {
            let j = choose|j: int| 0 <= j < b.entries@.len() && (#[trigger] b.entries@[j]).uuid == u;
            assert(a.entries@[j].uuid == u);
        }
    }
    assert forall|u: u128, p: QueueID|
        u != uuid implies (a.in_queue(p, u) <==> b.in_queue(p, u)) by {
        if a.in_queue(p, u) {
            let j = choose|j: int|
                {
                    &&& 0 <= j < a.entries@.len()
                    &&& (#[trigger] a.entries@[j]).uuid == u
                    &&& a.entries@[j].queue == p
                    &&& a.entries@[j].has_ctx
                    &&& a.entries@[j].has_eml
                };
            assert(b.entries@[j] == a.entries@[j]);
        }
        if b.in_queue(p, u) {
            let j = choose|j: int|
                {
                    &&& 0 <= j < b.entries@.len()
                    &&& (#[trigger] b.entries@[j]).uuid == u
                    &&& b.entries@[j].queue == p
                    &&& b.entries@[j].has_ctx
                    &&& b.entries@[j].has_eml
                };
            assert(a.entries@[j] == b.entries@[j]);
        }
    }
}

proof fn lemma_remove_frame(a: QueueManager, b: QueueManager, i: int, uuid: u128)
    requires
        0 <= i < a.entries@.len(),
        b.entries@ =~= a.entries@.remove(i),
        a.entries@[i].uuid == uuid,
        a.inv(),
    ensures
        forall|u: u128| u != uuid ==> (a.holds(u) <==> b.holds(u)),
        forall|u: u128, p: QueueID| u != uuid ==> (a.in_queue(p, u) <==> b.in_queue(p, u)),
        !b.holds(uuid),
        b.inv(),
{
    assert forall|u: u128| u != uuid implies (a.holds(u) <==> b.holds(u)) by {
        if a.holds(u) {
            let j = choose|j: int| 0 <= j < a.entries@.len() && (#[trigger] a.entries@[j]).uuid == u;
            if j < i {
                assert(b.entries@[j].uuid == u);
            } else {
                assert(b.entries@[j - 1].uuid == u);
            }
        }
        if b.holds(u) {
            let j = choose|j: int| 0 <= j < b.entries@.len() && (#[trigger] b.entries@[j]).uuid == u;
            if j < i {
                assert(a.entries@[j].uuid == u);
            } else {
                assert(a.entries@[j + 1].uuid == u);
            }
        }
    }
    assert forall|u: u128, p: QueueID|
        u != uuid implies (a.in_queue(p, u) <==> b.in_queue(p, u)) by {
        if a.in_queue(p, u) {
            let j = choose|j: int|
                {
                    &&& 0 <= j < a.entries@.len()
                    &&& (#[trigger] a.entries@[j]).uuid == u
                    &&& a.entries@[j].queue == p
                    &&& a.entries@[j].has_ctx
                    &&& a.entries@[j].has_eml
                };
            if j < i {
                assert(b.entries@[j] == a.entries@[j]);
            } else {
                assert(b.entries@[j - 1] == a.entries@[j]);
            }
        }
        if b.in_queue(p, u) {
            let j = choose|j: int|
                {
                    &&& 0 <= j < b.entries@.len()
                    &&& (#[trigger] b.entries@[j]).uuid == u
                    &&& b.entries@[j].queue == p
                    &&& b.entries@[j].has_ctx
                    &&& b.entries@[j].has_eml
                };
            if j < i {
                assert(a.entries@[j] == b.entries@[j]);
            } else {
                assert(a.entries@[j + 1] == b.entries@[j]);
            }
        }
    }
    assert forall|j: int| 0 <= j < b.entries@.len() implies (#[trigger] b.entries@[j]).uuid
        != uuid by {
        if j < i {
            assert(b.entries@[j] == a.entries@[j]);
        } else {
            assert(b.entries@[j] == a.entries@[j + 1]);
        }
    }
}

impl QueueManager {
    /// The retry count recorded for an identifier, where it has an entry.
    pub open spec fn retry_of(self, uuid: u128) -> u64 {
        self.entries@[self.find_spec(uuid)->0].retry
    }

    /// Renames both files of a message from one queue into another: after
    /// the move the message is wholly at the destination and no longer at
    /// the source, or an error reports why and nothing has moved. A message
    /// whose body half is missing cannot move: that is the orphan case.
    pub fn move_to(&mut self, src: QueueID, dst: QueueID, uuid: u128) -> (r: Result<
        (),
        QueueError,
    >)
        requires
            old(self).inv(),
        ensures
            final(self).inv(),
            r is Ok <==> old(self).in_queue(src, uuid),
            match r {
                Ok(()) => {
                    &&& final(self).in_queue(dst, uuid)
                    &&& (src != dst ==> !final(self).in_queue(src, uuid))
                    &&& final(self).retry_of(uuid) == old(self).retry_of(uuid)
                    &&& forall|u: u128|
                        u != uuid ==> (final(self).holds(u) <==> old(self).holds(u))
                    &&& forall|u: u128, p: QueueID|
                        u != uuid ==> (final(self).in_queue(p, u) <==> old(self).in_queue(p, u))
                },
                Err(QueueError::NotFound) => {
                    &&& *final(self) == *old(self)
                    &&& forall|j: int|
                        0 <= j < old(self).entries@.len() && (#[trigger] old(
                            self,
                        ).entries@[j]).uuid == uuid ==> old(self).entries@[j].queue != src
                },
                Err(QueueError::Orphan) => {
                    &&& *final(self) == *old(self)
                    &&& exists|j: int|
                        {
                            &&& 0 <= j < old(self).entries@.len()
                            &&& (#[trigger] old(self).entries@[j]).uuid == uuid
                            &&& old(self).entries@[j].queue == src
                            &&& !(old(self).entries@[j].has_ctx && old(self).entries@[j].has_eml)
                        }
                },
                Err(QueueError::AlreadyQueued) => false,
            },
    {
        match self.find(uuid) {
            None => Err(QueueError::NotFound),
            Some(i) => {
                let e = &self.entries[i];
                if !queue_eq(e.queue, src) {
                    proof {
                        assert forall|j: int|
                            0 <= j < self.entries@.len() && (#[trigger] self.entries@[j]).uuid
                                == uuid implies self.entries@[j].queue != src by {
                            assert(j == i);
                        }
                    }
                    return Err(QueueError::NotFound);
                }
                if !(e.has_ctx && e.has_eml) {
                    return Err(QueueError::Orphan);
                }
                let ghost before = *self;
                let moved = QueueEntry {
                    uuid,
                    queue: dst,
                    has_ctx: true,
                    has_eml: true,
                    retry: e.retry,
                };
                self.entries.set(i, moved);
                proof {
                    assert(self.entries@[i as int].uuid == uuid);
                    assert(self.in_queue(dst, uuid));
                    lemma_update_frame(before, *self, i as int, uuid);
                    if src != dst {
                        assert forall|j: int|
                            0 <= j < self.entries@.len() && (#[trigger] self.entries@[j]).uuid
                                == uuid implies !(self.entries@[j].queue == src
                            && self.entries@[j].has_ctx && self.entries@[j].has_eml) by {
                            assert(j == i);
                        }
                    }
                    assert(self.find_spec(uuid) == Some(i as int));
                    assert(before.find_spec(uuid) == Some(i as int));
                }
                Ok(())
            },
        }
    }

    /// Deletes both files of a message from its queue. A message of which
    /// only one half remains is reported as an orphan, distinctly from one
    /// that is absent, and the remainder is left untouched so that an
    /// operator can inspect it.
    pub fn remove_both(&mut self, q: QueueID, uuid: u128) -> (r: Result<(), QueueError>)
        requires
            old(self).inv(),
        ensures
            final(self).inv(),
            r is Ok <==> old(self).in_queue(q, uuid),
            match r {
                Ok(()) => {
                    &&& !final(self).holds(uuid)
                    &&& forall|u: u128|
                        u != uuid ==> (final(self).holds(u) <==> old(self).holds(u))
                    &&& forall|u: u128, p: QueueID|
                        u != uuid ==> (final(self).in_queue(p, u) <==> old(self).in_queue(p, u))
                },
                Err(QueueError::NotFound) => {
                    &&& *final(self) == *old(self)
                    &&& forall|j: int|
                        0 <= j < old(self).entries@.len() && (#[trigger] old(
                            self,
                        ).entries@[j]).uuid == uuid ==> old(self).entries@[j].queue != q
                },
                Err(QueueError::Orphan) => {
                    &&& *final(self) == *old(self)
                    &&& exists|j: int|
                        {
                            &&& 0 <= j < old(self).entries@.len()
                            &&& (#[trigger] old(self).entries@[j]).uuid == uuid
                            &&& old(self).entries@[j].queue == q
                            &&& !(old(self).entries@[j].has_ctx && old(self).entries@[j].has_eml)
                        }
                },
                Err(QueueError::AlreadyQueued) => false,
            },
    {
        match self.find(uuid) {
            None => Err(QueueError::NotFound),
            Some(i) => {
                let e = &self.entries[i];
                if !queue_eq(e.queue, q) {
                    proof {
                        assert forall|j: int|
                            0 <= j < self.entries@.len() && (#[trigger] self.entries@[j]).uuid
                                == uuid implies self.entries@[j].queue != q by {
                            assert(j == i);
                        }
                    }
                    return Err(QueueError::NotFound);
                }
                if !(e.has_ctx && e.has_eml) {
                    return Err(QueueError::Orphan);
                }
                let ghost before = *self;
                self.entries.remove(i);
                proof {
                    lemma_remove_frame(before, *self, i as int, uuid);
                }
                Ok(())
            },
        }
    }

    /// Whether a valid entry for the identifier sits in the queue.
    pub fn get_ctx(&self, q: QueueID, uuid: u128) -> (r: Option<u64>)
        requires
            self.inv(),
        ensures
            match r {
                Some(retry) => self.in_queue(q, uuid) && self.find_spec(uuid) is Some
                    && retry == self.retry_of(uuid),
                None => !self.in_queue(q, uuid),
            },
    {
        match self.find(uuid) {
            None => None,
            Some(i) => {
                let e = &self.entries[i];
                if queue_eq(e.queue, q) && e.has_ctx && e.has_eml {
                    proof {
                        assert(self.in_queue(q, uuid));
                        assert(self.find_spec(uuid) == Some(i as int));
                    }
                    Some(e.retry)
                } else {
                    proof {
                        assert forall|j: int|
                            0 <= j < self.entries@.len() && (#[trigger] self.entries@[j]).uuid
                                == uuid implies !(self.entries@[j].queue == q
                            && self.entries@[j].has_ctx && self.entries@[j].has_eml) by {
                            assert(j == i);
                        }
                    }
                    None
                }
            },
        }
    }

    /// The identifiers of the valid entries of a queue, in entry order;
    /// half-written entries are tolerated and skipped.
    pub fn list(&self, q: QueueID) -> (r: Vec<u128>)
        ensures
            forall|k: int| 0 <= k < r@.len() ==> self.in_queue(q, #[trigger] r@[k]),
            forall|u: u128| self.in_queue(q, u) ==> exists|k: int| 0 <= k < r@.len() && r@[k] == u,
    {
        let mut out: Vec<u128> = Vec::new();
        let mut i: usize = 0;
        while i < self.entries.len()
            invariant
                i <= self.entries@.len(),
                forall|k: int| 0 <= k < out@.len() ==> self.in_queue(q, #[trigger] out@[k]),
                forall|j: int|
                    0 <= j < i && (#[trigger] self.entries@[j]).queue == q
                        && self.entries@[j].has_ctx && self.entries@[j].has_eml ==> exists|k: int|
                        0 <= k < out@.len() && out@[k] == self.entries@[j].uuid,
            decreases self.entries@.len() - i,
        {
            let e = &self.entries[i];
            let ghost prev_out = out@;
            if queue_eq(e.queue, q) && e.has_ctx && e.has_eml {
                out.push(e.uuid);
            }
            proof {
                assert forall|j: int|
                    0 <= j < i + 1 && (#[trigger] self.entries@[j]).queue == q
                        && self.entries@[j].has_ctx && self.entries@[j].has_eml implies exists|
                    k: int,
                |
                    0 <= k < out@.len() && out@[k] == self.entries@[j].uuid by {
                    if j < i {
                        let k = choose|k: int|
                            0 <= k < prev_out.len() && prev_out[k] == self.entries@[j].uuid;
                        assert(out@[k] == self.entries@[j].uuid);
                    } else {
                        assert(out@.last() == self.entries@[j].uuid);
                    }
                }
            }
            i = i + 1;
        }
        proof {
            assert forall|u: u128| self.in_queue(q, u) implies exists|k: int|
                0 <= k < out@.len() && out@[k] == u by {
                let j = choose|j: int|
                    {
                        &&& 0 <= j < self.entries@.len()
                        &&& (#[trigger] self.entries@[j]).uuid == u
                        &&& self.entries@[j].queue == q
                        &&& self.entries@[j].has_ctx
                        &&& self.entries@[j].has_eml
                    };
            }
        }
        out
    }

    /// Rewrites the retry count of a valid deferred entry in place.
    pub fn set_retry(&mut self, uuid: u128, retry: u64) -> (r: bool)
        requires
            old(self).inv(),
        ensures
            final(self).inv(),
            r <==> old(self).holds(uuid),
            r ==> {
                &&& final(self).retry_of(uuid) == retry
                &&& forall|u: u128| final(self).holds(u) <==> old(self).holds(u)
                &&& forall|u: u128, p: QueueID|
                    u != uuid ==> (final(self).in_queue(p, u) <==> old(self).in_queue(p, u))
                &&& forall|p: QueueID| final(self).in_queue(p, uuid) <==> old(self).in_queue(p, uuid)
            },
            !r ==> *final(self) == *old(self),
    {
        match self.find(uuid) {
            None => false,
            Some(i) => {
                let e = &self.entries[i];
                let updated = QueueEntry {
                    uuid,
                    queue: e.queue,
                    has_ctx: e.has_ctx,
                    has_eml: e.has_eml,
                    retry,
                };
                let ghost before = *self;
                self.entries.set(i, updated);
                proof {
                    lemma_update_frame(before, *self, i as int, uuid);
                    assert(self.find_spec(uuid) == Some(i as int));
                    assert forall|p: QueueID| self.in_queue(p, uuid) <==> before.in_queue(
                        p,
                        uuid,
                    ) by {
                        if before.in_queue(p, uuid) {
                            let j = choose|j: int|
                                {
                                    &&& 0 <= j < before.entries@.len()
                                    &&& (#[trigger] before.entries@[j]).uuid == uuid
                                    &&& before.entries@[j].queue == p
                                    &&& before.entries@[j].has_ctx
                                    &&& before.entries@[j].has_eml
                                };
                            assert(j == i);
                            assert(self.entries@[i as int].queue == p);
                        }
                        if self.in_queue(p, uuid) {
                            let j = choose|j: int|
                                {
                                    &&& 0 <= j < self.entries@.len()
                                    &&& (#[trigger] self.entries@[j]).uuid == uuid
                                    &&& self.entries@[j].queue == p
                                    &&& self.entries@[j].has_ctx
                                    &&& self.entries@[j].has_eml
                                };
                            assert(j == i);
                            assert(before.entries@[i as int].queue == p);
                        }
                    }
                }
                true
            },
        }
    }
}

fn queue_eq(a: QueueID, b: QueueID) -> (r: bool)
    ensures
        r == (a == b),
{
    match (a, b) {
        (QueueID::Working, QueueID::Working) => true,
        (QueueID::Deliver, QueueID::Deliver) => true,
        (QueueID::Deferred, QueueID::Deferred) => true,
        (QueueID::Dead, QueueID::Dead) => true,
        (QueueID::Delegated, QueueID::Delegated) => true,
        _ => false,
    }
}

/// The queue highlighted in the spool inspector, cycled with the arrow
/// keys.
#[derive(Clone, Copy, PartialEq, Eq, Structural, Debug)]
pub enum SelectedQueue {
    Nothing,
    Dead,
    Deferred,
    Delegated,
    Deliver,
    Working,
}

impl SelectedQueue {
    /// The next selection in display order, wrapping from the last queue
    /// back to the first.
    pub fn next(&self) -> (r: SelectedQueue)
        ensures
            r == match *self {
                SelectedQueue::Nothing => SelectedQueue::Dead,
                SelectedQueue::Dead => SelectedQueue::Deferred,
                SelectedQueue::Deferred => SelectedQueue::Delegated,
                SelectedQueue::Delegated => SelectedQueue::Deliver,
                SelectedQueue::Deliver => SelectedQueue::Working,
                SelectedQueue::Working => SelectedQueue::Dead,
            },
    {
        match self {
            SelectedQueue::Nothing => SelectedQueue::Dead,
            SelectedQueue::Dead => SelectedQueue::Deferred,
            SelectedQueue::Deferred => SelectedQueue::Delegated,
            SelectedQueue::Delegated => SelectedQueue::Deliver,
            SelectedQueue::Deliver => SelectedQueue::Working,
            SelectedQueue::Working => SelectedQueue::Dead,
        }
    }

    /// The previous selection in display order.
    pub fn previous(&self) -> (r: SelectedQueue)
        ensures
            r == match *self {
                SelectedQueue::Nothing => SelectedQueue::Working,
                SelectedQueue::Dead => SelectedQueue::Working,
                SelectedQueue::Deferred => SelectedQueue::Dead,
                SelectedQueue::Delegated => SelectedQueue::Deferred,
                SelectedQueue::Deliver => SelectedQueue::Delegated,
                SelectedQueue::Working => SelectedQueue::Deliver,
            },
    {
        match self {
            SelectedQueue::Nothing => SelectedQueue::Working,
            SelectedQueue::Dead => SelectedQueue::Working,
            SelectedQueue::Deferred => SelectedQueue::Dead,
            SelectedQueue::Delegated => SelectedQueue::Deferred,
            SelectedQueue::Deliver => SelectedQueue::Delegated,
            SelectedQueue::Working => SelectedQueue::Deliver,
        }
    }
}

} // verus!
