//! Worker status reporting: the immutable message each worker sends over
//! the shared channel, and the monitor's per-worker status table. The
//! monitor keeps the last received message per worker and finishes exactly
//! when every worker has reported done.

use vstd::prelude::*;

verus! {

/// One status report: which worker, its latest free-text message, and
/// whether it has finished.
#[derive(Debug, Clone)]
pub struct ChildMsg {
    pub name: String,
    pub msg: String,
    pub done: bool,
}

impl ChildMsg {
    pub fn make(name: String, msg: String, done: bool) -> (r: ChildMsg)
        ensures
            r.name == name,
            r.msg == msg,
            r.done == done,
    {
        ChildMsg { name, msg, done }
    }
}

/// One entry of the table after absorbing a message: a matching name takes
/// the message's text and done flag, any other entry is unchanged.
pub open spec fn spec_entry_update(e: ChildMsg, m: ChildMsg) -> ChildMsg {
    if e.name@ == m.name@ {
        ChildMsg { name: e.name, msg: m.msg, done: m.done }
    } else {
        e
    }
}

/// One entry of the table after absorbing a whole sequence of messages in
/// order.
pub open spec fn spec_entry_after(e: ChildMsg, msgs: Seq<ChildMsg>) -> ChildMsg
    decreases msgs.len(),
{
    if msgs.len() == 0 {
        e
    } else {
        spec_entry_after(spec_entry_update(e, msgs.first()), msgs.drop_first())
    }
}

/// An entry already done stays done as long as every further message for
/// that worker also reports done.
proof fn lemma_entry_stays_done(e: ChildMsg, msgs: Seq<ChildMsg>)
    requires
        e.done,
        forall|t: int|
            0 <= t < msgs.len() && (#[trigger] msgs[t]).name@ == e.name@ ==> msgs[t].done,
    ensures
        spec_entry_after(e, msgs).done,
    decreases msgs.len(),
{
    if msgs.len() > 0 {
        let e2 = spec_entry_update(e, msgs.first());
        assert(msgs[0] == msgs.first());
        assert forall|t: int|
            0 <= t < msgs.drop_first().len() && (#[trigger] msgs.drop_first()[t]).name@
                == e2.name@ implies msgs.drop_first()[t].done by {
            assert(msgs.drop_first()[t] == msgs[t + 1]);
        }
        lemma_entry_stays_done(e2, msgs.drop_first());
    }
}

/// If some message in the stream reports the worker done, and every later
/// message from that worker also reports done (a worker's final report is
/// its `done` message), the entry ends up done.
pub proof fn lemma_entry_completes(e: ChildMsg, msgs: Seq<ChildMsg>, k: int)
    requires
        0 <= k < msgs.len(),
        msgs[k].name@ == e.name@,
        msgs[k].done,
        forall|t: int|
            k < t < msgs.len() && (#[trigger] msgs[t]).name@ == e.name@ ==> msgs[t].done,
    ensures
        spec_entry_after(e, msgs).done,
    decreases msgs.len(),
{
    let e2 = spec_entry_update(e, msgs.first());
    assert(msgs[0] == msgs.first());
    if k == 0 {
        assert(e2.done);
        assert forall|t: int|
            0 <= t < msgs.drop_first().len() && (#[trigger] msgs.drop_first()[t]).name@
                == e2.name@ implies msgs.drop_first()[t].done by {
            assert(msgs.drop_first()[t] == msgs[t + 1]);
        }
        lemma_entry_stays_done(e2, msgs.drop_first());
    } else {
        assert(e2.name@ == e.name@);
        assert(msgs.drop_first()[k - 1] == msgs[k]);
        assert forall|t: int|
            k - 1 < t < msgs.drop_first().len() && (#[trigger] msgs.drop_first()[t]).name@
                == e2.name@ implies msgs.drop_first()[t].done by {
            assert(msgs.drop_first()[t] == msgs[t + 1]);
        }
        lemma_entry_completes(e2, msgs.drop_first(), k - 1);
    }
}

/// The monitor's per-worker table: the last known message of each worker,
/// keyed by worker name.
#[derive(Debug)]
pub struct StatusBoard {
    pub entries: Vec<ChildMsg>,
}

impl StatusBoard {
    pub fn new() -> (r: StatusBoard)
        ensures
            r.entries@.len() == 0,
    {
        StatusBoard { entries: Vec::new() }
    }

    /// Add a worker to the table, initially not done.
    pub fn register(&mut self, name: String, msg: String)
        ensures
            final(self).entries@ == old(self).entries@.push(ChildMsg { name, msg, done: false }),
    {
        self.entries.push(ChildMsg { name, msg, done: false });
    }

    /// Absorb one received message: every entry with the sender's name takes
    /// the message's text and done flag.
    pub fn update(&mut self, msg: &ChildMsg)
        ensures
            final(self).entries@.len() == old(self).entries@.len(),
            forall|i: int|
                0 <= i < old(self).entries@.len() ==> final(self).entries@[i]
                    == spec_entry_update(#[trigger] old(self).entries@[i], *msg),
    {
        let count: usize = self.entries.len();
        let mut i: usize = 0;
        while i < count
            invariant
                count == self.entries@.len(),
                self.entries@.len() == old(self).entries@.len(),
                i <= count,
                forall|t: int|
                    0 <= t < i ==> self.entries@[t] == spec_entry_update(
                        #[trigger] old(self).entries@[t],
                        *msg,
                    ),
                forall|t: int|
                    i <= t < count ==> self.entries@[t] == #[trigger] old(self).entries@[t],
            decreases count - i,
        {
            if self.entries[i].name == msg.name {
                let updated = ChildMsg {
                    name: self.entries[i].name.clone(),
                    msg: msg.msg.clone(),
                    done: msg.done,
                };
                assert(updated.name@ == old(self).entries@[i as int].name@);
                self.entries.set(i, updated);
            }
            i = i + 1;
        }
    }

    /// Whether every known worker has reported done.
    pub fn all_done(&self) -> (r: bool)
        ensures
            r == forall|i: int| 0 <= i < self.entries@.len() ==> (#[trigger] self.entries@[i]).done,
    {
        let count: usize = self.entries.len();
        let mut i: usize = 0;
        while i < count
            invariant
                count == self.entries@.len(),
                i <= count,
                forall|t: int| 0 <= t < i ==> (#[trigger] self.entries@[t]).done,
            decreases count - i,
        {
            if !self.entries[i].done {
                return false;
            }
            i = i + 1;
        }
        true
    }

    /// Absorb a whole sequence of received messages in order.
    pub fn process_all(&mut self, msgs: &Vec<ChildMsg>)
        ensures
            final(self).entries@.len() == old(self).entries@.len(),
            forall|i: int|
                0 <= i < old(self).entries@.len() ==> final(self).entries@[i]
                    == spec_entry_after(#[trigger] old(self).entries@[i], msgs@),
    {
        let count: usize = msgs.len();
        let mut k: usize = 0;
        while k < count
            invariant
                count == msgs@.len(),
                k <= count,
                self.entries@.len() == old(self).entries@.len(),
                forall|i: int|
                    0 <= i < old(self).entries@.len() ==> self.entries@[i] == spec_entry_after(
                        #[trigger] old(self).entries@[i],
                        msgs@.take(k as int),
                    ),
            decreases count - k,
        {
            let ghost pre = self.entries@;
            self.update(&msgs[k]);
            proof {
                assert forall|i: int| 0 <= i < old(self).entries@.len() implies self.entries@[i]
                    == spec_entry_after(#[trigger] old(self).entries@[i], msgs@.take(
                    k + 1)) by {
                    lemma_entry_after_snoc(old(self).entries@[i], msgs@.take(k as int),
                        msgs@[k as int]);
                    assert(msgs@.take(k + 1) =~= msgs@.take(k as int).push(msgs@[k as int]));
                }
            }
            k = k + 1;
        }
        proof {
            assert(msgs@.take(count as int) =~= msgs@);
        }
    }
}

/// Absorbing one more message at the end is one more entry update.
proof fn lemma_entry_after_snoc(e: ChildMsg, msgs: Seq<ChildMsg>, m: ChildMsg)
    ensures
        spec_entry_after(e, msgs.push(m)) == spec_entry_update(spec_entry_after(e, msgs), m),
    decreases msgs.len(),
{
    let s1 = msgs.push(m);
    if msgs.len() == 0 {
        assert(s1.first() == m);
        assert(s1.drop_first() =~= msgs);
        assert(spec_entry_after(e, s1) == spec_entry_after(spec_entry_update(e, m),
            s1.drop_first()));
        assert(spec_entry_after(spec_entry_update(e, m), msgs) == spec_entry_update(e, m));
        assert(spec_entry_after(e, msgs) == e);
    } else {
        assert(s1.first() == msgs.first());
        assert(s1.drop_first() =~= msgs.drop_first().push(m));
        assert(spec_entry_after(e, s1) == spec_entry_after(spec_entry_update(e, msgs.first()),
            msgs.drop_first().push(m)));
        lemma_entry_after_snoc(spec_entry_update(e, msgs.first()), msgs.drop_first(), m);
        assert(spec_entry_after(e, msgs) == spec_entry_after(spec_entry_update(e, msgs.first()),
            msgs.drop_first()));
    }
}

/// The monitor terminates: if every registered worker has, somewhere in the
/// received stream, a `done` report after which it never reports not-done
/// (senders report in order and finish with `done`), then after absorbing
/// the stream the whole table is done, whatever the interleaving of workers
/// within the stream.
pub proof fn lemma_monitor_completes(entries: Seq<ChildMsg>, msgs: Seq<ChildMsg>)
    requires
        forall|i: int|
            0 <= i < entries.len() ==> exists|k: int|
                0 <= k < msgs.len() && (#[trigger] msgs[k]).name@ == (#[trigger] entries[i]).name@
                    && msgs[k].done && (forall|t: int|
                    k < t < msgs.len() && (#[trigger] msgs[t]).name@ == entries[i].name@
                        ==> msgs[t].done),
    ensures
        forall|i: int|
            0 <= i < entries.len() ==> (#[trigger] spec_entry_after(entries[i], msgs)).done,
{
    assert forall|i: int|
        0 <= i < entries.len() implies (#[trigger] spec_entry_after(entries[i], msgs)).done by {
        let k = choose|k: int|
            0 <= k < msgs.len() && (#[trigger] msgs[k]).name@ == entries[i].name@ && msgs[k].done
                && (forall|t: int|
                k < t < msgs.len() && (#[trigger] msgs[t]).name@ == entries[i].name@
                    ==> msgs[t].done);
        lemma_entry_completes(entries[i], msgs, k);
    }
}

} // verus!
