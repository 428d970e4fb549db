use vstd::prelude::*;

use crate::compile::compiled;
use crate::machine::{
    ran_from, stack_word, steps_to, place_data, place_strings, Machine, MachineState,
    StepResult, step_rel, RUN_CYCLE_LIMIT,
};
use crate::machine_error::MachineError;
use crate::memory::{place_words, CODE_START, STACK_ORIGIN};
use crate::message::{Event, Message};
use crate::parse_error::ParseError;
use crate::parser::Parser;

verus! {

/// `post` and `r` are the outcome of loading the assembled program `p` into
/// `pre` — its strings and data placed per the symbol table, its compiled
/// stream at the code origin — resetting the machine, and stepping it per
/// [`steps_to`] until a halt, a failure, or the cycle limit.
pub open spec fn loaded_and_ran(
    pre: Machine,
    post: Machine,
    p: Parser,
    r: Result<(), MachineError>,
) -> bool {
    exists|r0: Machine, mid: Machine, n: nat|
        {
            &&& r0 == (Machine {
                pc: CODE_START,
                sp: STACK_ORIGIN,
                fp: 0,
                state: MachineState::Ready,
                mem: r0.mem,
                events: r0.events,
                ..pre
            })
            &&& r0.events@ == Seq::<Event>::empty()
            &&& r0.mem.buffer@ == place_words(
                place_data(
                    place_strings(pre.mem.buffer@, p.symbols.offsets@, p.symbols.strings@),
                    p.symbols.offsets@,
                    p.symbols.data@,
                ),
                CODE_START as int,
                compiled(p.ops@),
            )
            &&& #[trigger] steps_to(r0, mid, n)
            &&& n <= RUN_CYCLE_LIMIT
            &&& match r {
                Ok(()) => n < RUN_CYCLE_LIMIT && step_rel(mid, post, Ok(StepResult::Halted)),
                Err(e) => (e == MachineError::HangingProgram && n == RUN_CYCLE_LIMIT
                    && post == mid) || step_rel(mid, post, Err(e)),
            }
        }
}

/// A copy of an event log, element for element (each string copied).
fn clone_events(events: &Vec<Event>) -> (r: Vec<Event>)
    ensures
        r@ == events@,
{
    let mut out: Vec<Event> = Vec::new();
    let mut i: usize = 0;
    while i < events.len()
        invariant
            i <= events@.len(),
            out@ == events@.subrange(0, i as int),
        decreases events@.len() - i,
    {
        let e: Event = match &events[i] {
            Event::Print { text } => Event::Print { text: text.clone() },
            Event::Send { port } => Event::Send { port: *port },
            Event::Halt => Event::Halt,
        };
        out.push(e);
        proof {
            assert(out@ =~= events@.subrange(0, i as int + 1));
        }
        i = i + 1;
    }
    proof {
        assert(events@.subrange(0, events@.len() as int) =~= events@);
    }
    out
}

/// A failure of one hosted run: either the source would not assemble or the
/// machine failed while executing.
#[derive(Debug, PartialEq)]
pub enum RunError {
    Parse { cause: ParseError },
    Machine { cause: MachineError },
}

/// What one hosted run hands back: the top stack words and the event log.
#[derive(Debug, Clone, PartialEq)]
pub struct RunResult {
    pub stack: Vec<u16>,
    pub events: Vec<Event>,
}

/// The host-facing front: a set of standalone machines, addressed by the
/// position they were added at.
#[derive(Debug)]
pub struct Controller {
    pub machines: Vec<Machine>,
}

impl Controller {
    /// Every owned machine is well formed.
    pub open spec fn wf(self) -> bool {
        forall|i: int| 0 <= i < self.machines@.len() ==> (#[trigger] self.machines@[i]).wf()
    }

    /// A controller with no machines.
    pub fn create() -> (c: Controller)
        ensures
            c.wf(),
            c.machines@.len() == 0,
    {
        Controller { machines: Vec::new() }
    }

    /// Adds a fresh machine and returns its id: its position.
    pub fn add(&mut self) -> (r: u16)
        requires
            old(self).wf(),
            old(self).machines@.len() < 0xFFFF,
        ensures
            final(self).wf(),
            r == old(self).machines@.len() as u16,
            final(self).machines@.len() == old(self).machines@.len() + 1,
            final(self).machines@.subrange(0, old(self).machines@.len() as int)
                == old(self).machines@,
            final(self).machines@.last().state is Loaded,
            final(self).machines@.last().wf(),
            final(self).machines@.last().pc == crate::memory::CODE_START,
            final(self).machines@.last().sp == crate::memory::STACK_ORIGIN,
            final(self).machines@.last().fp == 0,
            final(self).machines@.last().mem.buffer@ == Seq::new(
                crate::memory::MEMORY_SIZE as nat,
                |i: int| 0u16,
            ),
            final(self).machines@.last().inbox@ == Seq::<Message>::empty(),
            final(self).machines@.last().outbox@ == Seq::<Message>::empty(),
            final(self).machines@.last().events@ == Seq::<Event>::empty(),
    {
        let m = Machine::new();
        let id = self.id();
        self.machines.push(m);
        proof {
            assert(final(self).machines@.subrange(0, old(self).machines@.len() as int)
                =~= old(self).machines@);
        }
        id
    }

    /// The id the next machine will receive: the machine count.
    pub fn id(&self) -> (r: u16)
        requires
            self.machines@.len() <= 0xFFFF,
        ensures
            r == self.machines@.len() as u16,
    {
        self.machines.len() as u16
    }

    /// Assembles `source`, loads its symbols and code into the machine under
    /// `id`, runs it to completion, and hands back the top ten stack words
    /// with the event log.
    pub fn run(&mut self, id: u16, source: &str) -> (r: Result<RunResult, RunError>)
        requires
            old(self).wf(),
            id < old(self).machines@.len(),
        ensures
            final(self).wf(),
            final(self).machines@.len() == old(self).machines@.len(),
            forall|k: int| 0 <= k < old(self).machines@.len() && k != id
                ==> final(self).machines@[k] == old(self).machines@[k],
            r matches Ok(out) ==> out.stack@.len() == 10
                && final(self).machines@[id as int].state is Halted
                && (forall|k: int| 0 <= k < 10 ==> out.stack@[k] == stack_word(
                    final(self).machines@[id as int],
                    k,
                ))
                && out.events@ == final(self).machines@[id as int].events@
                && (exists|p: Parser| #[trigger] p.wf() && loaded_and_ran(
                    old(self).machines@[id as int],
                    final(self).machines@[id as int],
                    p,
                    Ok(()),
                )),
            r matches Err(e) && e is Parse ==> *final(self) == *old(self),
            r matches Err(RunError::Machine { cause }) ==> cause
                == MachineError::AddressOutOfRange || (exists|p: Parser| #[trigger] p.wf()
                && loaded_and_ran(
                old(self).machines@[id as int],
                final(self).machines@[id as int],
                p,
                Err(cause),
            )),
    {
        let parsed = match Parser::parse(source) {
            Ok(p) => p,
            Err(cause) => {
                return Err(RunError::Parse { cause });
            },
        };
        let ghost gp = parsed;
        match load_and_run(&mut self.machines, id as usize, parsed) {
            Ok(_) => {},
            Err(cause) => {
                return Err(RunError::Machine { cause });
            },
        }
        let stack = self.machines[id as usize].read_stack(10);
        let events = clone_events(&self.machines[id as usize].events);
        Ok(RunResult { stack, events })
    }

    /// The top `size` stack words of the machine under `id`.
    pub fn read_stack(&self, id: u16, size: u16) -> (r: Vec<u16>)
        requires
            self.wf(),
            id < self.machines@.len(),
        ensures
            r@.len() == size as nat,
            forall|k: int| 0 <= k < size ==> r@[k] == stack_word(self.machines@[id as int], k),
    {
        self.machines[id as usize].read_stack(size)
    }
}

/// Loads the assembled program into the machine at index `i` and runs it.
fn load_and_run(machines: &mut Vec<Machine>, i: usize, parsed: Parser) -> (r: Result<
    (),
    MachineError,
>)
    requires
        i < old(machines)@.len(),
        old(machines)@[i as int].wf(),
    ensures
        final(machines)@.len() == old(machines)@.len(),
        forall|k: int| 0 <= k < old(machines)@.len() && k != i
            ==> final(machines)@[k] == old(machines)@[k],
        final(machines)@[i as int].wf(),
        r is Ok ==> final(machines)@[i as int].state is Halted,
        r is Ok ==> loaded_and_ran(
            old(machines)@[i as int],
            final(machines)@[i as int],
            parsed,
            Ok(()),
        ),
        r matches Err(e) ==> e == MachineError::AddressOutOfRange || loaded_and_ran(
            old(machines)@[i as int],
            final(machines)@[i as int],
            parsed,
            Err(e),
        ),
{
    let ghost pre = old(machines)@[i as int];
    let sym_r = machines[i].load_symbols(&parsed.symbols);
    match sym_r {
        Ok(_) => {},
        Err(e) => {
            return Err(e);
        },
    }
    let ghost m1 = machines@[i as int];
    let code_r = machines[i].load_code(parsed.ops);
    match code_r {
        Ok(_) => {},
        Err(e) => {
            return Err(e);
        },
    }
    let ghost m2 = machines@[i as int];
    let run_r = machines[i].run();
    proof {
        let post = machines@[i as int];
        assert(ran_from(m2, post, run_r));
        let (r0, mid, n) = choose|r0: Machine, mid: Machine, n: nat|
            {
                &&& crate::machine::readied_from(m2, r0)
                &&& #[trigger] steps_to(r0, mid, n)
                &&& n <= RUN_CYCLE_LIMIT
                &&& match run_r {
                    Ok(()) => n < RUN_CYCLE_LIMIT && step_rel(mid, post, Ok(StepResult::Halted)),
                    Err(e) => (e == MachineError::HangingProgram && n == RUN_CYCLE_LIMIT
                        && post == mid) || step_rel(mid, post, Err(e)),
                }
            };
        assert(r0.mem.buffer@ == m2.mem.buffer@);
        assert(loaded_and_ran(pre, post, parsed, run_r));
    }
    run_r
}

} // verus!
