//! Bounded, insertion-ordered alert history: newest record first, capped at
//! `ALERT_CAP` entries. Push and eviction are one atomic operation, so the
//! length bound holds after every call.

use vstd::prelude::*;
use std::collections::VecDeque;

verus! {

/// Capacity bound of the alert history.
pub const ALERT_CAP: usize = 50;

/// A derived record created when an uploaded capture is successfully stored,
/// summarizing its peak temperature and orientation. Immutable once created.
/// `max_temp` and `angle` carry IEEE-754 single-precision bit patterns (see
/// `fbits`).
pub struct AlertRecord {
    pub id: String,
    pub timestamp: u64,
    pub turbine_token: String,
    pub max_temp: u32,
    pub angle: u32,
    pub dataset_path: String,
}

impl Clone for AlertRecord {
    fn clone(&self) -> (r: Self)
        ensures
            r == *self,
    {
        AlertRecord {
            id: self.id.clone(),
            timestamp: self.timestamp,
            turbine_token: self.turbine_token.clone(),
            max_temp: self.max_temp,
            angle: self.angle,
            dataset_path: self.dataset_path.clone(),
        }
    }
}

/// The bounded alert history. Its view is the sequence of records, newest
/// first.
pub struct AlertRing {
    q: VecDeque<AlertRecord>,
}

impl View for AlertRing {
    type V = Seq<AlertRecord>;

    closed spec fn view(&self) -> Seq<AlertRecord> {
        self.q@
    }
}

impl AlertRing {
    /// The capacity invariant: the history never holds more than `ALERT_CAP`
    /// records.
    pub open spec fn wf(&self) -> bool {
        self@.len() <= ALERT_CAP
    }

    /// An empty history.
    pub fn new() -> (r: Self)
        ensures
            r@ == Seq::<AlertRecord>::empty(),
            r.wf(),
    {
        AlertRing { q: VecDeque::new() }
    }

    pub fn len(&self) -> (r: usize)
        ensures
            r == self@.len(),
    {
        self.q.len()
    }

    /// Inserts `rec` as the newest record and, in the same operation, evicts
    /// the oldest record if the capacity bound would be exceeded. The new
    /// view is `rec` followed by the old records, truncated to `ALERT_CAP`.
    pub fn push(&mut self, rec: AlertRecord)
        requires
            old(self).wf(),
        ensures
            final(self).wf(),
            final(self)@.len() == if old(self)@.len() < ALERT_CAP {
                old(self)@.len() + 1
            } else {
                ALERT_CAP as nat
            },
            final(self)@ == (seq![rec] + old(self)@).take(final(self)@.len() as int),
    {
        self.q.push_front(rec);
        if self.q.len() > ALERT_CAP {
            self.q.pop_back();
        }
        proof {
            assert(self@ =~= (seq![rec] + old(self)@).take(self@.len() as int));
        }
    }

    /// A snapshot of the history, newest first.
    pub fn list(&self) -> (r: Vec<AlertRecord>)
        ensures
            r@ == self@,
    {
        let mut r: Vec<AlertRecord> = Vec::new();
        let n = self.q.len();
        for i in 0..n
            invariant
                n == self@.len(),
                r@ == self@.take(i as int),
        {
            r.push(self.q[i].clone());
            proof {
                assert(r@ =~= self@.take(i + 1));
            }
        }
        proof {
            assert(r@ =~= self@);
        }
        r
    }
}

} // verus!
