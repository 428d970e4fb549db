use vstd::prelude::*;

use crate::machine::{Machine, MachineState, StepResult, step_rel};
use crate::machine_error::MachineError;
use crate::memory::{CODE_START, STACK_ORIGIN};
use crate::message::{Event, Message};

verus! {

/// `post` is `pre` after one step, whatever that step reported.
pub open spec fn stepped(pre: Machine, post: Machine) -> bool {
    exists|ri: Result<StepResult, MachineError>| step_rel(pre, post, ri)
}

/// `post` is `pre` after one step that did not fail.
pub open spec fn stepped_ok(pre: Machine, post: Machine) -> bool {
    exists|sr: StepResult| step_rel(pre, post, Ok(sr))
}

/// The concatenation of every machine's outbox, in machine order.
pub open spec fn outboxes(machines: Seq<Machine>) -> Seq<Message>
    decreases machines.len(),
{
    if machines.len() == 0 {
        Seq::empty()
    } else {
        outboxes(machines.drop_last()) + machines.last().outbox@
    }
}

/// Owns every machine of a canvas, keyed by id, and steps them in id order.
#[derive(Debug, Clone)]
pub struct Router {
    pub machines: Vec<Machine>,
}

impl Router {
    /// Machines are well-formed and stand in strictly ascending id order, so
    /// stepping and draining in vector order is id order.
    pub open spec fn wf(self) -> bool {
        &&& forall|i: int| 0 <= i < self.machines@.len() ==> (#[trigger] self.machines@[i]).wf()
        &&& forall|i: int, j: int|
            0 <= i < j < self.machines@.len() ==> (#[trigger] self.machines@[i]).id
                < (#[trigger] self.machines@[j]).id
    }

    /// Whether some owned machine carries `id`.
    pub open spec fn contains_id(self, id: u16) -> bool {
        exists|i: int| 0 <= i < self.machines@.len() && (#[trigger] self.machines@[i]).id == id
    }

    /// Every machine is halted or faulted; an empty router is halted.
    pub open spec fn all_halted(self) -> bool {
        forall|i: int| 0 <= i < self.machines@.len()
            ==> (#[trigger] self.machines@[i]).state is Halted
                || self.machines@[i].state is Faulted
    }

    /// A router owning no machine.
    pub fn new() -> (r: Router)
        ensures
            r.wf(),
            r.machines@ == Seq::<Machine>::empty(),
    {
        Router { machines: Vec::new() }
    }

    /// Creates a fresh machine under `id`. Ids are issued by the canvas in
    /// ascending order, which keeps the vector sorted.
    pub fn add_with_id(&mut self, id: u16)
        requires
            old(self).wf(),
            forall|i: int| 0 <= i < old(self).machines@.len()
                ==> (#[trigger] old(self).machines@[i]).id < id,
        ensures
            final(self).wf(),
            final(self).machines@.len() == old(self).machines@.len() + 1,
            final(self).machines@.subrange(0, old(self).machines@.len() as int)
                == old(self).machines@,
            final(self).machines@.last().id == id,
            final(self).machines@.last().state is Loaded,
            final(self).machines@.last().wf(),
            final(self).machines@.last().outbox@ == Seq::<Message>::empty(),
            final(self).machines@.last().inbox@ == Seq::<Message>::empty(),
            final(self).contains_id(id),
    {
        let mut m = Machine::new();
        m.id = id;
        self.machines.push(m);
        proof {
            assert(final(self).machines@.subrange(0, old(self).machines@.len() as int)
                =~= old(self).machines@);
            assert(final(self).machines@[old(self).machines@.len() as int].id == id);
        }
    }

    /// A shared borrow of the machine under `id`.
    pub fn get(&self, id: u16) -> (r: Option<&Machine>)
        ensures
            r matches Some(m) ==> exists|i: int|
                0 <= i < self.machines@.len() && self.machines@[i] == *m
                    && (#[trigger] self.machines@[i]).id == id,
            r is None ==> !self.contains_id(id),
    {
        let n = self.machines.len();
        let mut i: usize = 0;
        while i < n
            invariant
                n == self.machines@.len(),
                i <= n,
                forall|k: int| 0 <= k < i ==> (#[trigger] self.machines@[k]).id != id,
            decreases n - i,
        {
            if self.machines[i].id == id {
                return Some(&self.machines[i]);
            }
            i = i + 1;
        }
        None
    }

    /// Appends `msg` to the inbox of the machine under `id`; reports whether
    /// such a machine exists. Nothing else changes.
    pub fn deliver(&mut self, id: u16, msg: Message) -> (r: bool)
        requires
            old(self).wf(),
        ensures
            final(self).wf(),
            r == old(self).contains_id(id),
            final(self).machines@.len() == old(self).machines@.len(),
            forall|i: int| 0 <= i < old(self).machines@.len()
                && (#[trigger] old(self).machines@[i]).id != id
                ==> final(self).machines@[i] == old(self).machines@[i],
            forall|i: int| 0 <= i < old(self).machines@.len()
                && (#[trigger] old(self).machines@[i]).id == id
                ==> final(self).machines@[i] == (Machine {
                    inbox: final(self).machines@[i].inbox,
                    ..old(self).machines@[i]
                }) && final(self).machines@[i].inbox@ == old(self).machines@[i].inbox@.push(msg),
    {
        let n = self.machines.len();
        let mut i: usize = 0;
        while i < n
            invariant
                n == self.machines@.len(),
                i <= n,
                old(self).wf(),
                *self == *old(self),
                forall|k: int| 0 <= k < i ==> (#[trigger] self.machines@[k]).id != id,
            decreases n - i,
        {
            if self.machines[i].id == id {
                proof {
                    assert forall|k: int|
                        0 <= k < self.machines@.len()
                            && (#[trigger] self.machines@[k]).id == id implies k == i
                    by {
                        if k < i as int {
                        } else if k > i as int {
                            assert(self.machines@[i as int].id < self.machines@[k].id);
                        }
                    }
                }
                self.machines[i].inbox.push(msg);
                return true;
            }
            i = i + 1;
        }
        false
    }

    /// Steps every machine that is not yet halted or faulted exactly once, in
    /// id order; a machine that fails is left faulted and the first failure
    /// is reported after every machine was stepped.
    pub fn step(&mut self) -> (r: Result<(), MachineError>)
        requires
            old(self).wf(),
        ensures
            final(self).wf(),
            final(self).machines@.len() == old(self).machines@.len(),
            forall|i: int| 0 <= i < old(self).machines@.len()
                ==> #[trigger] stepped(old(self).machines@[i], final(self).machines@[i]),
            forall|i: int| 0 <= i < old(self).machines@.len()
                ==> (#[trigger] final(self).machines@[i]).id == old(self).machines@[i].id,
            r is Ok ==> forall|i: int| 0 <= i < old(self).machines@.len()
                ==> #[trigger] stepped_ok(old(self).machines@[i], final(self).machines@[i]),
            r matches Err(e) ==> exists|i: int|
                0 <= i < old(self).machines@.len() && #[trigger] step_rel(
                    old(self).machines@[i],
                    final(self).machines@[i],
                    Err(e),
                ) && (forall|j: int| 0 <= j < i ==> stepped_ok(
                    old(self).machines@[j],
                    final(self).machines@[j],
                )),
    {
        let n = self.machines.len();
        let mut i: usize = 0;
        let mut first_err: Option<MachineError> = None;
        let ghost mut fi: int = 0;
        while i < n
            invariant
                n == self.machines@.len(),
                n == old(self).machines@.len(),
                i <= n,
                self.wf(),
                forall|k: int| 0 <= k < self.machines@.len()
                    ==> (#[trigger] self.machines@[k]).id == old(self).machines@[k].id,
                forall|k: int| 0 <= k < i
                    ==> #[trigger] stepped(old(self).machines@[k], self.machines@[k]),
                first_err is None ==> forall|k: int| 0 <= k < i
                    ==> #[trigger] stepped_ok(old(self).machines@[k], self.machines@[k]),
                first_err matches Some(e) ==> 0 <= fi < i && step_rel(
                    old(self).machines@[fi],
                    self.machines@[fi],
                    Err(e),
                ) && (forall|j: int| 0 <= j < fi ==> stepped_ok(
                    old(self).machines@[j],
                    self.machines@[j],
                )),
                forall|k: int| i <= k < n
                    ==> self.machines@[k] == old(self).machines@[k],
            decreases n - i,
        {
            let ghost pre = self.machines@[i as int];
            let sr = step_machine(&mut self.machines, i);
            match sr {
                Err(e) => {
                    if first_err.is_none() {
                        first_err = Some(e);
                        proof {
                            fi = i as int;
                        }
                    }
                },
                Ok(_) => {},
            }
            proof {
                assert(pre == old(self).machines@[i as int]);
                assert(step_rel(old(self).machines@[i as int], self.machines@[i as int], sr));
                assert(stepped(old(self).machines@[i as int], self.machines@[i as int]));
                if sr is Ok {
                    assert(stepped_ok(old(self).machines@[i as int], self.machines@[i as int]));
                }
            }
            i = i + 1;
        }
        match first_err {
            Some(e) => Err(e),
            None => Ok(()),
        }
    }

    /// Whether every machine is halted or faulted.
    pub fn is_halted(&self) -> (r: bool)
        ensures
            r == self.all_halted(),
    {
        let n = self.machines.len();
        let mut i: usize = 0;
        while i < n
            invariant
                n == self.machines@.len(),
                i <= n,
                forall|k: int| 0 <= k < i ==> (#[trigger] self.machines@[k]).state is Halted
                    || self.machines@[k].state is Faulted,
            decreases n - i,
        {
            match self.machines[i].state {
                MachineState::Halted => {},
                MachineState::Faulted => {},
                _ => {
                    return false;
                },
            }
            i = i + 1;
        }
        true
    }

    /// Resets every machine: registers to the segment origins, event logs
    /// emptied, states made ready.
    pub fn ready(&mut self)
        requires
            old(self).wf(),
        ensures
            final(self).wf(),
            final(self).machines@.len() == old(self).machines@.len(),
            forall|i: int| 0 <= i < old(self).machines@.len()
                ==> #[trigger] final(self).machines@[i] == (Machine {
                    pc: CODE_START,
                    sp: STACK_ORIGIN,
                    fp: 0,
                    state: MachineState::Ready,
                    events: final(self).machines@[i].events,
                    ..old(self).machines@[i]
                }) && final(self).machines@[i].events@ == Seq::<Event>::empty(),
    {
        let n = self.machines.len();
        let mut i: usize = 0;
        while i < n
            invariant
                n == self.machines@.len(),
                n == old(self).machines@.len(),
                i <= n,
                self.wf(),
                forall|k: int| i <= k < n ==> self.machines@[k] == old(self).machines@[k],
                forall|k: int| 0 <= k < i
                    ==> #[trigger] self.machines@[k] == (Machine {
                        pc: CODE_START,
                        sp: STACK_ORIGIN,
                        fp: 0,
                        state: MachineState::Ready,
                        events: self.machines@[k].events,
                        ..old(self).machines@[k]
                    }) && self.machines@[k].events@ == Seq::<Event>::empty(),
            decreases n - i,
        {
            ready_machine(&mut self.machines, i);
            i = i + 1;
        }
    }

    /// Drains every machine's outbox and returns the messages in id order.
    pub fn consume_messages(&mut self) -> (msgs: Vec<Message>)
        requires
            old(self).wf(),
        ensures
            final(self).wf(),
            msgs@ == outboxes(old(self).machines@),
            final(self).machines@.len() == old(self).machines@.len(),
            forall|i: int| 0 <= i < old(self).machines@.len()
                ==> #[trigger] final(self).machines@[i] == (Machine {
                    outbox: final(self).machines@[i].outbox,
                    ..old(self).machines@[i]
                }) && final(self).machines@[i].outbox@ == Seq::<Message>::empty(),
    {
        let mut msgs: Vec<Message> = Vec::new();
        let n = self.machines.len();
        let mut i: usize = 0;
        while i < n
            invariant
                n == self.machines@.len(),
                n == old(self).machines@.len(),
                i <= n,
                self.wf(),
                msgs@ == outboxes(old(self).machines@.subrange(0, i as int)),
                forall|k: int| i <= k < n ==> self.machines@[k] == old(self).machines@[k],
                forall|k: int| 0 <= k < i
                    ==> #[trigger] self.machines@[k] == (Machine {
                        outbox: self.machines@[k].outbox,
                        ..old(self).machines@[k]
                    }) && self.machines@[k].outbox@ == Seq::<Message>::empty(),
            decreases n - i,
        {
            let mut taken = drain_outbox(&mut self.machines, i);
            msgs.append(&mut taken);
            proof {
                let full = old(self).machines@;
                assert(full.subrange(0, i as int + 1).drop_last() =~= full.subrange(0, i as int));
                assert(full.subrange(0, i as int + 1).last() == full[i as int]);
                assert(outboxes(full.subrange(0, i as int + 1)) == outboxes(
                    full.subrange(0, i as int),
                ) + full[i as int].outbox@);
            }
            i = i + 1;
        }
        proof {
            assert(old(self).machines@.subrange(0, n as int) =~= old(self).machines@);
        }
        msgs
    }
}

/// Steps the machine at index `i` of `machines`, leaving every other one
/// untouched; a failure leaves it faulted.
fn step_machine(machines: &mut Vec<Machine>, i: usize) -> (r: Result<StepResult, MachineError>)
    requires
        i < old(machines)@.len(),
        old(machines)@[i as int].wf(),
    ensures
        final(machines)@.len() == old(machines)@.len(),
        forall|k: int| 0 <= k < old(machines)@.len() && k != i
            ==> final(machines)@[k] == old(machines)@[k],
        final(machines)@[i as int].wf(),
        final(machines)@[i as int].id == old(machines)@[i as int].id,
        step_rel(old(machines)@[i as int], final(machines)@[i as int], r),
{
    machines[i].step()
}

/// Resets the machine at index `i`, leaving every other one untouched.
fn ready_machine(machines: &mut Vec<Machine>, i: usize)
    requires
        i < old(machines)@.len(),
        old(machines)@[i as int].wf(),
    ensures
        final(machines)@.len() == old(machines)@.len(),
        forall|k: int| 0 <= k < old(machines)@.len() && k != i
            ==> final(machines)@[k] == old(machines)@[k],
        final(machines)@[i as int] == (Machine {
            pc: CODE_START,
            sp: STACK_ORIGIN,
            fp: 0,
            state: MachineState::Ready,
            events: final(machines)@[i as int].events,
            ..old(machines)@[i as int]
        }),
        final(machines)@[i as int].events@ == Seq::<Event>::empty(),
        final(machines)@[i as int].wf(),
{
    machines[i].ready()
}

/// Drains the outbox of the machine at index `i`, leaving every other one
/// untouched.
fn drain_outbox(machines: &mut Vec<Machine>, i: usize) -> (msgs: Vec<Message>)
    requires
        i < old(machines)@.len(),
    ensures
        final(machines)@.len() == old(machines)@.len(),
        forall|k: int| 0 <= k < old(machines)@.len() && k != i
            ==> final(machines)@[k] == old(machines)@[k],
        msgs@ == old(machines)@[i as int].outbox@,
        final(machines)@[i as int] == (Machine {
            outbox: final(machines)@[i as int].outbox,
            ..old(machines)@[i as int]
        }),
        final(machines)@[i as int].outbox@ == Seq::<Message>::empty(),
{
    let mut taken: Vec<Message> = Vec::new();
    core::mem::swap(&mut taken, &mut machines[i].outbox);
    taken
}

} // verus!
