//! Run state and the reducer that derives it from events.
//!
//! Reduction is a pure, deterministic function of a base state and an event
//! sequence, which is what lets snapshots stand in for a replay prefix.

use vstd::prelude::*;

use crate::event::{duplicate_updates, events_view, Event, EventView, FieldUpdate};

verus! {

/// A run's state: named fields with values, each name at most once.
#[derive(Clone, Debug)]
pub struct KernelState {
    fields: Vec<FieldUpdate>,
}

/// `s` with field `f.field` set to `f.value`: replaced in place when present,
/// appended otherwise.
pub open spec fn set_field(s: Seq<FieldUpdate>, f: FieldUpdate) -> Seq<FieldUpdate> {
    if exists|i: int| 0 <= i < s.len() && s[i].field@ == f.field@ {
        s.update(choose|i: int| 0 <= i < s.len() && s[i].field@ == f.field@, f)
    } else {
        s.push(f)
    }
}

/// `s` with the updates applied in order.
pub open spec fn apply_updates(s: Seq<FieldUpdate>, u: Seq<FieldUpdate>) -> Seq<FieldUpdate>
    decreases u.len(),
{
    if u.len() == 0 {
        s
    } else {
        apply_updates(set_field(s, u[0]), u.drop_first())
    }
}

/// The state after one event: state updates set their fields, a successful
/// action sets the field named by its action id to its output, a resumption
/// sets its key to its value, and every other event leaves the state as it is.
pub open spec fn reduce_spec(s: Seq<FieldUpdate>, e: EventView) -> Seq<FieldUpdate> {
    match e {
        EventView::StateUpdated { payload, .. } => apply_updates(s, payload),
        EventView::ActionSucceeded { action_id, output } => set_field(
            s,
            FieldUpdate { field: action_id, value: output },
        ),
        EventView::Resumed { key, value } => set_field(s, FieldUpdate { field: key, value }),
        _ => s,
    }
}

/// The state after the events, in order, starting from `s`.
pub open spec fn replay_spec(s: Seq<FieldUpdate>, es: Seq<EventView>) -> Seq<FieldUpdate>
    decreases es.len(),
{
    if es.len() == 0 {
        s
    } else {
        reduce_spec(replay_spec(s, es.drop_last()), es.last())
    }
}

/// Field names are unique.
pub open spec fn unique_fields(s: Seq<FieldUpdate>) -> bool {
    forall|i: int, j: int| 0 <= i < s.len() && 0 <= j < s.len() && i != j ==> s[i].field@ != s[j].field@
}

impl View for KernelState {
    type V = Seq<FieldUpdate>;

    closed spec fn view(&self) -> Seq<FieldUpdate> {
        self.fields@
    }
}

proof fn lemma_set_field_unique(s: Seq<FieldUpdate>, f: FieldUpdate)
    requires
        unique_fields(s),
    ensures
        unique_fields(set_field(s, f)),
{
}

proof fn lemma_apply_updates_unique(s: Seq<FieldUpdate>, u: Seq<FieldUpdate>)
    requires
        unique_fields(s),
    ensures
        unique_fields(apply_updates(s, u)),
    decreases u.len(),
{
    if u.len() > 0 {
        lemma_set_field_unique(s, u[0]);
        lemma_apply_updates_unique(set_field(s, u[0]), u.drop_first());
    }
}

impl KernelState {
    /// Field names are unique.
    pub closed spec fn wf(&self) -> bool {
        unique_fields(self.fields@)
    }

    /// The state with no fields.
    pub fn new() -> (r: KernelState)
        ensures
            r.wf(),
            r@ == Seq::<FieldUpdate>::empty(),
    {
        KernelState { fields: Vec::new() }
    }

    /// A copy of the state.
    pub fn duplicate(&self) -> (r: KernelState)
        ensures
            r@ == self@,
            r.wf() == self.wf(),
    {
        KernelState { fields: duplicate_updates(&self.fields) }
    }

    /// The value of `field`, if set.
    pub fn get(&self, field: &String) -> (r: Option<String>)
        requires
            self.wf(),
        ensures
            match r {
                Some(v) => exists|i: int| 0 <= i < self@.len() && self@[i].field@ == field@ && self@[i].value == v,
                None => forall|i: int| 0 <= i < self@.len() ==> self@[i].field@ != field@,
            },
    {
        for i in 0..self.fields.len()
            invariant
                forall|k: int| 0 <= k < i ==> self.fields[k].field@ != field@,
        {
            if self.fields[i].field == *field {
                let v = self.fields[i].value.clone();
                assert(self@[i as int].field@ == field@ && self@[i as int].value == v);
                return Some(v);
            }
        }
        None
    }

    /// Sets one field.
    pub fn set(&mut self, f: FieldUpdate)
        requires
            old(self).wf(),
        ensures
            final(self).wf(),
            final(self)@ == set_field(old(self)@, f),
    {
        let ghost s = self.fields@;
        let n = self.fields.len();
        for i in 0..n
            invariant
                n == s.len(),
                s == old(self)@,
                self.fields@ == s,
                unique_fields(s),
                forall|k: int| 0 <= k < i ==> s[k].field@ != f.field@,
        {
            if self.fields[i].field == f.field {
                assert(s[i as int].field@ == f.field@);
                let ghost c = choose|c: int| 0 <= c < s.len() && s[c].field@ == f.field@;
                assert(c == i);
                let ghost g = f;
                assert(set_field(s, g) == s.update(i as int, g));
                self.fields.set(i, f);
                assert(self.fields@ == s.update(i as int, g));
                return;
            }
        }
        self.fields.push(f);
    }

    /// Applies field updates in order.
    pub fn apply_updates(&mut self, updates: &Vec<FieldUpdate>)
        requires
            old(self).wf(),
        ensures
            final(self).wf(),
            final(self)@ == apply_updates(old(self)@, updates@),
    {
        assert(updates@.skip(0) =~= updates@);
        for i in 0..updates.len()
            invariant
                self.wf(),
                apply_updates(self@, updates@.skip(i as int)) == apply_updates(old(self)@, updates@),
        {
            self.set(updates[i].duplicate());
            assert(updates@.skip(i as int).drop_first() =~= updates@.skip(i + 1));
        }
        assert(updates@.skip(updates.len() as int) =~= Seq::<FieldUpdate>::empty());
    }

    /// Applies one event.
    pub fn apply(&mut self, event: &Event)
        requires
            old(self).wf(),
        ensures
            final(self).wf(),
            final(self)@ == reduce_spec(old(self)@, event@),
    {
        match event {
            Event::StateUpdated { payload, .. } => self.apply_updates(payload),
            Event::ActionSucceeded { action_id, output } => self.set(
                FieldUpdate { field: action_id.clone(), value: output.clone() },
            ),
            Event::Resumed { key, value } => self.set(FieldUpdate { field: key.clone(), value: value.clone() }),
            _ => {},
        }
    }

    /// Applies `events[from..]` in order.
    pub fn replay(&mut self, events: &Vec<Event>, from: usize)
        requires
            old(self).wf(),
            from <= events.len(),
        ensures
            final(self).wf(),
            final(self)@ == replay_spec(old(self)@, events_view(events@).skip(from as int)),
    {
        let ghost es = events_view(events@).skip(from as int);
        for i in from..events.len()
            invariant
                self.wf(),
                es == events_view(events@).skip(from as int),
                self@ == replay_spec(old(self)@, es.take(i - from)),
        {
            self.apply(&events[i]);
            assert(es.take(i + 1 - from).drop_last() =~= es.take(i - from));
        }
        assert(es.take(events.len() - from) =~= es);
    }
}

/// Replaying a log from its start gives the same state as replaying its first
/// `k` events and then the rest: a state derived from any prefix can stand in
/// for that prefix.
pub proof fn lemma_replay_split(s: Seq<FieldUpdate>, es: Seq<EventView>, k: int)
    requires
        0 <= k <= es.len(),
    ensures
        replay_spec(s, es) == replay_spec(replay_spec(s, es.take(k)), es.skip(k)),
    decreases es.len(),
{
    if k == es.len() {
        assert(es.take(k) =~= es);
        assert(es.skip(k).len() == 0);
    } else {
        let dl = es.drop_last();
        lemma_replay_split(s, dl, k);
        assert(dl.take(k) =~= es.take(k));
        assert(es.skip(k).drop_last() =~= dl.skip(k));
        assert(es.skip(k).last() == es.last());
    }
}

} // verus!
