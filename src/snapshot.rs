//! Snapshots: cached reduced state at a log position, used only to avoid
//! replaying a run from its start.

use vstd::prelude::*;

use crate::identity::SeqNo;
use crate::reducer::KernelState;

verus! {

/// The state of run `run_id` after its first `seq` events.
#[derive(Clone, Debug)]
pub struct Snapshot {
    pub run_id: String,
    pub seq: SeqNo,
    pub state: KernelState,
}

/// Snapshots held in memory, in the order they were put.
pub struct InMemorySnapshotStore {
    snaps: Vec<Snapshot>,
}

impl InMemorySnapshotStore {
    /// The stored snapshots, in the order they were put.
    pub closed spec fn snapshots(&self) -> Seq<Snapshot> {
        self.snaps@
    }

    /// Every stored state is well formed.
    pub closed spec fn wf(&self) -> bool {
        forall|i: int| 0 <= i < self.snaps.len() ==> #[trigger] self.snaps[i].state.wf()
    }

    pub fn new() -> (r: InMemorySnapshotStore)
        ensures
            r.wf(),
            r.snapshots() == Seq::<Snapshot>::empty(),
    {
        InMemorySnapshotStore { snaps: Vec::new() }
    }

    /// Stores the state of run `run_id` after its first `seq` events.
    pub fn put(&mut self, run_id: &String, seq: SeqNo, state: &KernelState)
        requires
            old(self).wf(),
            state.wf(),
        ensures
            final(self).wf(),
            final(self).snapshots().len() == old(self).snapshots().len() + 1,
            final(self).snapshots().drop_last() == old(self).snapshots(),
            final(self).snapshots().last().run_id == *run_id,
            final(self).snapshots().last().seq == seq,
            final(self).snapshots().last().state@ == state@,
    {
        let ghost before = self.snaps@;
        self.snaps.push(Snapshot { run_id: run_id.clone(), seq, state: state.duplicate() });
        assert(self.snaps@.drop_last() =~= before);
    }

    /// The latest snapshot of run `run_id` at or before position `seq`:
    /// among the run's snapshots with a position not after `seq`, one with
    /// the greatest position.
    pub fn get_latest_at_or_before(&self, run_id: &String, seq: SeqNo) -> (r: Option<Snapshot>)
        requires
            self.wf(),
        ensures
            match r {
                Some(s) => {
                    &&& s.state.wf()
                    &&& exists|i: int|
                        0 <= i < self.snapshots().len() && self.snapshots()[i].run_id == s.run_id
                            && self.snapshots()[i].seq == s.seq && self.snapshots()[i].state@ == s.state@
                    &&& s.run_id@ == run_id@
                    &&& s.seq <= seq
                    &&& forall|i: int|
                        0 <= i < self.snapshots().len() && self.snapshots()[i].run_id@ == run_id@
                            && self.snapshots()[i].seq <= seq ==> self.snapshots()[i].seq <= s.seq
                },
                None => forall|i: int|
                    0 <= i < self.snapshots().len() && self.snapshots()[i].run_id@ == run_id@
                        ==> self.snapshots()[i].seq > seq,
            },
    {
        let mut best: Option<usize> = None;
        for i in 0..self.snaps.len()
            invariant
                self.wf(),
                best matches Some(b) ==> b < i && self.snaps@[b as int].run_id@ == run_id@
                    && self.snaps@[b as int].seq <= seq,
                forall|k: int|
                    0 <= k < i && self.snaps@[k].run_id@ == run_id@ && self.snaps@[k].seq <= seq ==> (best matches Some(
                        b,
                    ) && self.snaps@[k].seq <= self.snaps@[b as int].seq),
        {
            if self.snaps[i].run_id == *run_id && self.snaps[i].seq <= seq {
                let better = match best {
                    None => true,
                    Some(b) => self.snaps[i].seq >= self.snaps[b].seq,
                };
                if better {
                    best = Some(i);
                }
            }
        }
        match best {
            None => None,
            Some(b) => {
                let s = &self.snaps[b];
                assert(s.state.wf());
                let c = Snapshot { run_id: s.run_id.clone(), seq: s.seq, state: s.state.duplicate() };
                assert(self.snapshots()[b as int].run_id == c.run_id);
                Some(c)
            },
        }
    }
}

} // verus!
