use vstd::prelude::*;

use crate::compile::{compile, compiled};
use crate::machine_error::MachineError;
use crate::memory::{place_words, Memory, CODE_START, MEMORY_SIZE, STACK_FLOOR, STACK_ORIGIN};
use crate::message::{Action, Event, Message, Port};
use crate::op::{decode_op, op_size, Op};
use crate::symbols::{lookup, Symbols};
use crate::text::{char_from_u32, push_char};

verus! {

/// Cycle limit of a standalone [`Machine::run`]: a program still running
/// after this many instructions is reported as hanging.
pub const RUN_CYCLE_LIMIT: u32 = 1000;

/// Lifecycle state of one machine.
#[derive(Debug, Clone, Copy, PartialEq, Eq, Structural)]
pub enum MachineState {
    /// Created (and possibly loaded), not yet made ready.
    Loaded,
    /// Registers reset; the next step executes the first instruction.
    Ready,
    /// At least one instruction has executed since the last reset.
    Running,
    /// `Halt` or the `Eof` terminator was reached; steps are now no-ops.
    Halted,
    /// An execution failure occurred; steps are now no-ops.
    Faulted,
}

/// What one successful step reports.
#[derive(Debug, Clone, Copy, PartialEq, Eq, Structural)]
pub enum StepResult {
    Continued,
    Halted,
}

/// A single virtual machine: memory, registers, mailboxes and an event log.
#[derive(Debug, Clone)]
pub struct Machine {
    /// Identity used to stamp outgoing messages; equals the canvas block id
    /// when the machine lives in a router.
    pub id: u16,
    pub mem: Memory,
    /// Program counter: address of the next opcode word.
    pub pc: u16,
    /// Stack pointer: address of the next free stack cell (the stack grows
    /// downward from `STACK_ORIGIN`).
    pub sp: u16,
    /// Frame pointer; reserved, cleared by `ready`.
    pub fp: u16,
    pub state: MachineState,
    pub inbox: Vec<Message>,
    pub outbox: Vec<Message>,
    pub events: Vec<Event>,
}

/// The character a stored word denotes: its code point, with the surrogate
/// range (which no `char` can carry) replaced by U+FFFD.
pub open spec fn word_char(w: u16) -> char {
    if w < 0xD800 || w >= 0xE000 {
        (w as u32) as char
    } else {
        '\u{FFFD}'
    }
}

/// The word a character is stored as: its code point truncated to 16 bits.
pub open spec fn char_word(c: char) -> u16 {
    (c as u32) as u16
}

/// The words a string literal occupies in memory: one per character, then a
/// zero terminator.
pub open spec fn string_words(text: Seq<char>) -> Seq<u16> {
    Seq::new(text.len(), |i: int| char_word(text[i])).push(0)
}

/// Address of the first zero word at or after `i`, if any.
pub open spec fn str_end(mem: Seq<u16>, i: int) -> Option<int>
    decreases mem.len() - i when 0 <= i <= mem.len()
{
    if i >= mem.len() {
        None
    } else if mem[i] == 0 {
        Some(i)
    } else {
        str_end(mem, i + 1)
    }
}

/// The characters of the null-terminated string spanning `ptr .. end`.
pub open spec fn str_chars(mem: Seq<u16>, ptr: int, end: int) -> Seq<char> {
    Seq::new((end - ptr) as nat, |k: int| word_char(mem[ptr + k]))
}

/// Whether an opcode word names an instruction that carries an operand word.
pub open spec fn is_imm_opcode(w: u16) -> bool {
    w == 0x01 || (0x05 <= w && w <= 0x0B)
}

/// `post` is `pre` faulted with `e`: nothing changed but the state.
pub open spec fn faulted(
    pre: Machine,
    post: Machine,
    r: Result<StepResult, MachineError>,
    e: MachineError,
) -> bool {
    post == (Machine { state: MachineState::Faulted, ..pre }) && r == Err::<
        StepResult,
        MachineError,
    >(e)
}

/// `post` is `pre` after one value was pushed and the program counter moved
/// to `next`.
pub open spec fn ok_pushed(pre: Machine, post: Machine, next: u16, v: u16) -> bool {
    &&& post == (Machine {
        pc: next,
        sp: (pre.sp - 1) as u16,
        state: MachineState::Running,
        mem: post.mem,
        ..pre
    })
    &&& post.mem.buffer@ == pre.mem.buffer@.update(pre.sp as int, v)
}

/// The continuing step result.
pub open spec fn continued(r: Result<StepResult, MachineError>) -> bool {
    r == Ok::<StepResult, MachineError>(StepResult::Continued)
}

/// Effect of one decoded instruction `op` on a non-halted machine whose
/// program counter has notionally advanced to `next`. This is the design
/// semantics of the instruction set: every clause pins the whole successor
/// state.
pub open spec fn op_rel(
    pre: Machine,
    post: Machine,
    r: Result<StepResult, MachineError>,
    op: Op,
    next: u16,
) -> bool {
    match op {
        Op::Noop => post == (Machine { pc: next, state: MachineState::Running, ..pre })
            && continued(r),
        Op::Halt | Op::Eof => {
            &&& post == (Machine {
                pc: next,
                state: MachineState::Halted,
                events: post.events,
                ..pre
            })
            &&& post.events@ == pre.events@.push(Event::Halt)
            &&& r == Ok::<StepResult, MachineError>(StepResult::Halted)
        },
        Op::Push(v) => if pre.sp >= STACK_FLOOR {
            ok_pushed(pre, post, next, v) && continued(r)
        } else {
            faulted(pre, post, r, MachineError::StackOverflow)
        },
        Op::LoadString(a) => if pre.sp >= STACK_FLOOR {
            ok_pushed(pre, post, next, a) && continued(r)
        } else {
            faulted(pre, post, r, MachineError::StackOverflow)
        },
        Op::Pop => if pre.sp < STACK_ORIGIN {
            post == (Machine {
                pc: next,
                sp: (pre.sp + 1) as u16,
                state: MachineState::Running,
                ..pre
            }) && continued(r)
        } else {
            faulted(pre, post, r, MachineError::StackUnderflow)
        },
        Op::Dup => if pre.sp >= STACK_ORIGIN {
            faulted(pre, post, r, MachineError::StackUnderflow)
        } else if pre.sp < STACK_FLOOR {
            faulted(pre, post, r, MachineError::StackOverflow)
        } else {
            ok_pushed(pre, post, next, pre.mem.buffer@[pre.sp + 1]) && continued(r)
        },
        Op::Swap => if pre.sp + 2 <= STACK_ORIGIN {
            &&& post == (Machine { pc: next, state: MachineState::Running, mem: post.mem, ..pre })
            &&& post.mem.buffer@ == pre.mem.buffer@.update(
                pre.sp + 1,
                pre.mem.buffer@[pre.sp + 2],
            ).update(pre.sp + 2, pre.mem.buffer@[pre.sp + 1])
            &&& continued(r)
        } else {
            faulted(pre, post, r, MachineError::StackUnderflow)
        },
        Op::Load(a) => if a >= MEMORY_SIZE {
            faulted(pre, post, r, MachineError::AddressOutOfRange)
        } else if pre.sp < STACK_FLOOR {
            faulted(pre, post, r, MachineError::StackOverflow)
        } else {
            ok_pushed(pre, post, next, pre.mem.buffer@[a as int]) && continued(r)
        },
        Op::Store(a) => if pre.sp >= STACK_ORIGIN {
            faulted(pre, post, r, MachineError::StackUnderflow)
        } else if a >= MEMORY_SIZE {
            faulted(pre, post, r, MachineError::AddressOutOfRange)
        } else {
            &&& post == (Machine {
                pc: next,
                sp: (pre.sp + 1) as u16,
                state: MachineState::Running,
                mem: post.mem,
                ..pre
            })
            &&& post.mem.buffer@ == pre.mem.buffer@.update(
                a as int,
                pre.mem.buffer@[pre.sp + 1],
            )
            &&& continued(r)
        },
        Op::Jump(a) => if CODE_START + a >= MEMORY_SIZE {
            faulted(pre, post, r, MachineError::AddressOutOfRange)
        } else {
            post == (Machine {
                pc: (CODE_START + a) as u16,
                state: MachineState::Running,
                ..pre
            }) && continued(r)
        },
        Op::JumpZero(a) => jump_cond_rel(pre, post, r, a, next, true),
        Op::JumpNotZero(a) => jump_cond_rel(pre, post, r, a, next, false),
        Op::Call(a) => if CODE_START + a >= MEMORY_SIZE {
            faulted(pre, post, r, MachineError::AddressOutOfRange)
        } else if pre.sp < STACK_FLOOR {
            faulted(pre, post, r, MachineError::StackOverflow)
        } else {
            &&& post == (Machine {
                pc: (CODE_START + a) as u16,
                sp: (pre.sp - 1) as u16,
                state: MachineState::Running,
                mem: post.mem,
                ..pre
            })
            &&& post.mem.buffer@ == pre.mem.buffer@.update(pre.sp as int, next)
            &&& continued(r)
        },
        Op::Return => if pre.sp < STACK_ORIGIN {
            post == (Machine {
                pc: pre.mem.buffer@[pre.sp + 1],
                sp: (pre.sp + 1) as u16,
                state: MachineState::Running,
                ..pre
            }) && continued(r)
        } else {
            faulted(pre, post, r, MachineError::StackUnderflow)
        },
        Op::Print => if pre.sp >= STACK_ORIGIN {
            faulted(pre, post, r, MachineError::StackUnderflow)
        } else {
            let ptr = pre.mem.buffer@[pre.sp + 1] as int;
            match str_end(pre.mem.buffer@, ptr) {
                None => faulted(pre, post, r, MachineError::AddressOutOfRange),
                Some(end) => {
                    &&& post == (Machine {
                        pc: next,
                        sp: (pre.sp + 1) as u16,
                        state: MachineState::Running,
                        events: post.events,
                        ..pre
                    })
                    &&& post.events@.len() == pre.events@.len() + 1
                    &&& post.events@.subrange(0, pre.events@.len() as int) == pre.events@
                    &&& post.events@.last() matches Event::Print { text }
                        && text@ == str_chars(pre.mem.buffer@, ptr, end)
                    &&& continued(r)
                },
            }
        },
        Op::Send => if pre.sp + 2 <= STACK_ORIGIN
            && pre.sp + 2 + pre.mem.buffer@[pre.sp + 2] <= STACK_ORIGIN {
            let port_word = pre.mem.buffer@[pre.sp + 1];
            let n = pre.mem.buffer@[pre.sp + 2] as int;
            let from = Port { block: pre.id, port: port_word };
            &&& post == (Machine {
                pc: next,
                sp: (pre.sp + 2 + n) as u16,
                state: MachineState::Running,
                outbox: post.outbox,
                events: post.events,
                ..pre
            })
            &&& post.events@ == pre.events@.push(Event::Send { port: from })
            &&& post.outbox@.len() == pre.outbox@.len() + 1
            &&& post.outbox@.subrange(0, pre.outbox@.len() as int) == pre.outbox@
            &&& post.outbox@.last().port == from
            &&& post.outbox@.last().action matches Action::Data { body }
                && body@ == Seq::new(n as nat, |i: int| pre.mem.buffer@[pre.sp + 2 + n - i])
            &&& continued(r)
        } else {
            faulted(pre, post, r, MachineError::StackUnderflow)
        },
    }
}

/// Effect of a conditional jump: pops the condition, branches to the target
/// when the condition's zeroness matches `on_zero`.
pub open spec fn jump_cond_rel(
    pre: Machine,
    post: Machine,
    r: Result<StepResult, MachineError>,
    a: u16,
    next: u16,
    on_zero: bool,
) -> bool {
    if pre.sp >= STACK_ORIGIN {
        faulted(pre, post, r, MachineError::StackUnderflow)
    } else {
        let cond = pre.mem.buffer@[pre.sp + 1];
        let taken = if on_zero { cond == 0 } else { cond != 0 };
        if taken {
            if CODE_START + a >= MEMORY_SIZE {
                faulted(pre, post, r, MachineError::AddressOutOfRange)
            } else {
                post == (Machine {
                    pc: (CODE_START + a) as u16,
                    sp: (pre.sp + 1) as u16,
                    state: MachineState::Running,
                    ..pre
                }) && continued(r)
            }
        } else {
            post == (Machine {
                pc: next,
                sp: (pre.sp + 1) as u16,
                state: MachineState::Running,
                ..pre
            }) && continued(r)
        }
    }
}

/// Full effect of one step: no-op on a halted or faulted machine, otherwise
/// fetch, decode and dispatch per [`op_rel`], faulting on a bad fetch.
pub open spec fn step_rel(
    pre: Machine,
    post: Machine,
    r: Result<StepResult, MachineError>,
) -> bool {
    if pre.state is Halted || pre.state is Faulted {
        post == pre && r == Ok::<StepResult, MachineError>(StepResult::Halted)
    } else if pre.pc >= MEMORY_SIZE {
        faulted(pre, post, r, MachineError::AddressOutOfRange)
    } else {
        let opcode = pre.mem.buffer@[pre.pc as int];
        if is_imm_opcode(opcode) && pre.pc + 1 >= MEMORY_SIZE {
            faulted(pre, post, r, MachineError::AddressOutOfRange)
        } else {
            let operand = if is_imm_opcode(opcode) {
                pre.mem.buffer@[pre.pc + 1]
            } else {
                0
            };
            match decode_op(opcode, operand) {
                None => faulted(pre, post, r, MachineError::InvalidOpcode),
                Some(op) => op_rel(pre, post, r, op, (pre.pc + op_size(op)) as u16),
            }
        }
    }
}

/// Whether a table entry named `name`, occupying `len` words, fits below the
/// end of memory at its recorded offset (an entry without an offset is
/// skipped by the loader and always fits).
pub open spec fn entry_fits(offs: Seq<(String, u16)>, name: Seq<char>, len: nat) -> bool {
    match lookup(offs, name) {
        Some(off) => off + len <= MEMORY_SIZE,
        None => true,
    }
}

/// Every string entry (text plus terminator) and every data entry of the
/// table fits in memory at its recorded offset.
pub open spec fn symbols_fit(s: Symbols) -> bool {
    &&& forall|k: int| 0 <= k < s.strings@.len() ==> entry_fits(
        s.offsets@,
        (#[trigger] s.strings@[k]).0@,
        s.strings@[k].1@.len() + 1,
    )
    &&& forall|k: int| 0 <= k < s.data@.len() ==> entry_fits(
        s.offsets@,
        (#[trigger] s.data@[k]).0@,
        s.data@[k].1@.len(),
    )
}

/// `post` is reached from `pre` by exactly `n` steps that each reported
/// `Continued`.
pub open spec fn steps_to(pre: Machine, post: Machine, n: nat) -> bool
    decreases n,
{
    if n == 0 {
        post == pre
    } else {
        exists|mid: Machine|
            #[trigger] step_rel(pre, mid, Ok(StepResult::Continued)) && steps_to(
                mid,
                post,
                (n - 1) as nat,
            )
    }
}

/// `m` is `pre` reset by `ready`: registers at the segment origins, state
/// ready, event log cleared, everything else kept.
pub open spec fn readied_from(pre: Machine, m: Machine) -> bool {
    &&& m == (Machine {
        pc: CODE_START,
        sp: STACK_ORIGIN,
        fp: 0,
        state: MachineState::Ready,
        events: m.events,
        ..pre
    })
    &&& m.events@ == Seq::<Event>::empty()
}

/// `post` and `r` are the outcome of resetting `pre` and stepping until a
/// step reports `Halted` (then `Ok`), a step fails (then that failure), or
/// the cycle limit runs out (then `HangingProgram`, at the machine reached).
pub open spec fn ran_from(pre: Machine, post: Machine, r: Result<(), MachineError>) -> bool {
    exists|r0: Machine, mid: Machine, n: nat|
        {
            &&& readied_from(pre, r0)
            &&& #[trigger] steps_to(r0, mid, n)
            &&& n <= RUN_CYCLE_LIMIT
            &&& match r {
                Ok(()) => n < RUN_CYCLE_LIMIT && step_rel(mid, post, Ok(StepResult::Halted)),
                Err(e) => (e == MachineError::HangingProgram && n == RUN_CYCLE_LIMIT
                    && post == mid) || step_rel(mid, post, Err(e)),
            }
        }
}

/// Appending one continuing step to a chain of `n` extends it to `n + 1`.
pub proof fn lemma_steps_to_snoc(a: Machine, b: Machine, c: Machine, n: nat)
    requires
        steps_to(a, b, n),
        step_rel(b, c, Ok(StepResult::Continued)),
    ensures
        steps_to(a, c, n + 1),
    decreases n,
{
    if n == 0 {
        assert(b == a);
        assert(steps_to(c, c, 0));
        assert(steps_to(a, c, 1));
    } else {
        let mid = choose|mid: Machine|
            #[trigger] step_rel(a, mid, Ok(StepResult::Continued)) && steps_to(
                mid,
                b,
                (n - 1) as nat,
            );
        lemma_steps_to_snoc(mid, b, c, (n - 1) as nat);
        assert(steps_to(a, c, n + 1));
    }
}

impl Machine {
    /// The memory spans the whole address space and the stack pointer sits
    /// at or below the stack origin.
    pub open spec fn wf(self) -> bool {
        self.mem.wf() && self.sp <= STACK_ORIGIN
    }

    /// A fresh, empty, loaded machine: zeroed memory, reset registers, empty
    /// mailboxes and event log.
    pub fn new() -> (m: Machine)
        ensures
            m.wf(),
            m.id == 0,
            m.pc == CODE_START,
            m.sp == STACK_ORIGIN,
            m.fp == 0,
            m.state is Loaded,
            m.mem.buffer@ == Seq::new(MEMORY_SIZE as nat, |i: int| 0u16),
            m.inbox@ == Seq::<Message>::empty(),
            m.outbox@ == Seq::<Message>::empty(),
            m.events@ == Seq::<Event>::empty(),
    {
        Machine {
            id: 0,
            mem: Memory::new(),
            pc: CODE_START,
            sp: STACK_ORIGIN,
            fp: 0,
            state: MachineState::Loaded,
            inbox: Vec::new(),
            outbox: Vec::new(),
            events: Vec::new(),
        }
    }

    /// Resets the registers to the segment origins, empties the event log and
    /// marks the machine ready. Memory and mailboxes are kept.
    pub fn ready(&mut self)
        requires
            old(self).wf(),
        ensures
            final(self).wf(),
            *final(self) == (Machine {
                pc: CODE_START,
                sp: STACK_ORIGIN,
                fp: 0,
                state: MachineState::Ready,
                events: final(self).events,
                ..*old(self)
            }),
            final(self).events@ == Seq::<Event>::empty(),
    {
        self.pc = CODE_START;
        self.sp = STACK_ORIGIN;
        self.fp = 0;
        self.state = MachineState::Ready;
        self.events.clear();
    }

    /// Whether the machine is done: halted cleanly or faulted.
    pub fn is_halted(&self) -> (r: bool)
        ensures
            r == (self.state is Halted || self.state is Faulted),
    {
        match self.state {
            MachineState::Halted => true,
            MachineState::Faulted => true,
            _ => false,
        }
    }

    /// Compiles `ops` and writes the stream at the code origin; a stream that
    /// would run past the end of memory is rejected untouched.
    pub fn load_code(&mut self, ops: Vec<Op>) -> (r: Result<(), MachineError>)
        requires
            old(self).wf(),
        ensures
            final(self).wf(),
            *final(self) == (Machine { mem: final(self).mem, ..*old(self) }),
            CODE_START + compiled(ops@).len() <= MEMORY_SIZE ==> r == Ok::<(), MachineError>(())
                && final(self).mem.buffer@ == place_words(
                old(self).mem.buffer@,
                CODE_START as int,
                compiled(ops@),
            ),
            CODE_START + compiled(ops@).len() > MEMORY_SIZE ==> r == Err::<(), MachineError>(
                MachineError::AddressOutOfRange,
            ) && final(self).mem.buffer@ == old(self).mem.buffer@,
    {
        let words = compile(ops);
        self.mem.write_block(CODE_START, &words)
    }

    /// Writes every string literal (null-terminated, one word per character)
    /// and every data array of the symbol table at its recorded offset, in
    /// table order. An entry without a recorded offset is skipped; an entry
    /// that would run past the end of memory stops the load with an error,
    /// leaving the entries before it written.
    pub fn load_symbols(&mut self, symbols: &Symbols) -> (r: Result<(), MachineError>)
        requires
            old(self).wf(),
        ensures
            final(self).wf(),
            *final(self) == (Machine { mem: final(self).mem, ..*old(self) }),
            r is Ok <==> symbols_fit(*symbols),
            r is Ok ==> final(self).mem.buffer@ == place_data(
                place_strings(old(self).mem.buffer@, symbols.offsets@, symbols.strings@),
                symbols.offsets@,
                symbols.data@,
            ),
            r is Err ==> r == Err::<(), MachineError>(MachineError::AddressOutOfRange)
                && ((exists|j: int| 0 <= j <= symbols.strings@.len()
                && final(self).mem.buffer@ == place_strings(
                old(self).mem.buffer@,
                symbols.offsets@,
                #[trigger] symbols.strings@.subrange(0, j),
            )) || (exists|j: int| 0 <= j <= symbols.data@.len()
                && final(self).mem.buffer@ == place_data(
                place_strings(old(self).mem.buffer@, symbols.offsets@, symbols.strings@),
                symbols.offsets@,
                #[trigger] symbols.data@.subrange(0, j),
            ))),
    {
        let ns = symbols.strings.len();
        let mut i: usize = 0;
        while i < ns
            invariant
                self.wf(),
                ns == symbols.strings@.len(),
                i <= ns,
                *self == (Machine { mem: self.mem, ..*old(self) }),
                self.mem.buffer@ == place_strings(
                    old(self).mem.buffer@,
                    symbols.offsets@,
                    symbols.strings@.subrange(0, i as int),
                ),
                forall|k: int| 0 <= k < i ==> entry_fits(
                    symbols.offsets@,
                    (#[trigger] symbols.strings@[k]).0@,
                    symbols.strings@[k].1@.len() + 1,
                ),
            decreases ns - i,
        {
            let entry_name = &symbols.strings[i].0;
            let entry_text = &symbols.strings[i].1;
            let words = text_words(entry_text);
            match symbols.offset_of(entry_name.as_str()) {
                Some(off) => {
                    if self.mem.write_block(off, &words).is_err() {
                        proof {
                            assert(!entry_fits(
                                symbols.offsets@,
                                symbols.strings@[i as int].0@,
                                symbols.strings@[i as int].1@.len() + 1,
                            ));
                        }
                        return Err(MachineError::AddressOutOfRange);
                    }
                },
                None => {},
            }
            proof {
                lemma_place_strings_push(
                    old(self).mem.buffer@,
                    symbols.offsets@,
                    symbols.strings@.subrange(0, i as int),
                    symbols.strings@[i as int],
                );
                assert(symbols.strings@.subrange(0, i as int).push(symbols.strings@[i as int])
                    =~= symbols.strings@.subrange(0, i as int + 1));
            }
            i = i + 1;
        }
        proof {
            assert(symbols.strings@.subrange(0, ns as int) =~= symbols.strings@);
        }
        let ghost after_strings = self.mem.buffer@;
        let nd = symbols.data.len();
        let mut j: usize = 0;
        while j < nd
            invariant
                self.wf(),
                nd == symbols.data@.len(),
                j <= nd,
                *self == (Machine { mem: self.mem, ..*old(self) }),
                self.mem.buffer@ == place_data(
                    after_strings,
                    symbols.offsets@,
                    symbols.data@.subrange(0, j as int),
                ),
                after_strings == place_strings(
                    old(self).mem.buffer@,
                    symbols.offsets@,
                    symbols.strings@,
                ),
                forall|k: int| 0 <= k < symbols.strings@.len() ==> entry_fits(
                    symbols.offsets@,
                    (#[trigger] symbols.strings@[k]).0@,
                    symbols.strings@[k].1@.len() + 1,
                ),
                forall|k: int| 0 <= k < j ==> entry_fits(
                    symbols.offsets@,
                    (#[trigger] symbols.data@[k]).0@,
                    symbols.data@[k].1@.len(),
                ),
            decreases nd - j,
        {
            let entry_name = &symbols.data[j].0;
            match symbols.offset_of(entry_name.as_str()) {
                Some(off) => {
                    if self.mem.write_block(off, &symbols.data[j].1).is_err() {
                        proof {
                            assert(!entry_fits(
                                symbols.offsets@,
                                symbols.data@[j as int].0@,
                                symbols.data@[j as int].1@.len(),
                            ));
                        }
                        return Err(MachineError::AddressOutOfRange);
                    }
                },
                None => {},
            }
            proof {
                lemma_place_data_push(
                    after_strings,
                    symbols.offsets@,
                    symbols.data@.subrange(0, j as int),
                    symbols.data@[j as int],
                );
                assert(symbols.data@.subrange(0, j as int).push(symbols.data@[j as int])
                    =~= symbols.data@.subrange(0, j as int + 1));
            }
            j = j + 1;
        }
        proof {
            assert(symbols.data@.subrange(0, nd as int) =~= symbols.data@);
        }
        Ok(())
    }

    /// The top `n` stack words, topmost first; cells below the bottom of the
    /// stack read as zero.
    pub fn read_stack(&self, n: u16) -> (r: Vec<u16>)
        requires
            self.wf(),
        ensures
            r@.len() == n as nat,
            forall|i: int| 0 <= i < n ==> r@[i] == stack_word(*self, i),
    {
        let mut out: Vec<u16> = Vec::new();
        let mut i: u16 = 0;
        while i < n
            invariant
                self.wf(),
                i <= n,
                out@.len() == i as nat,
                forall|k: int| 0 <= k < i ==> out@[k] == stack_word(*self, k),
            decreases n - i,
        {
            let addr = self.sp as u32 + 1 + i as u32;
            if addr <= STACK_ORIGIN as u32 {
                out.push(self.mem.read(addr as u16));
            } else {
                out.push(0);
            }
            i = i + 1;
        }
        out
    }
}

impl Machine {
    /// Reads the null-terminated string starting at `ptr`: every word up to
    /// the first zero, each taken as a character. Memory ending before a
    /// terminator is an address failure.
    fn read_string(&self, ptr: u16) -> (r: Result<String, MachineError>)
        requires
            self.wf(),
        ensures
            r matches Ok(s) ==> str_end(self.mem.buffer@, ptr as int) matches Some(end)
                && s@ == str_chars(self.mem.buffer@, ptr as int, end),
            r is Err ==> str_end(self.mem.buffer@, ptr as int) is None && r == Err::<
                String,
                MachineError,
            >(MachineError::AddressOutOfRange),
    {
        let ghost buf = self.mem.buffer@;
        let end: u16 = match self.find_terminator(ptr) {
            Some(e) => e,
            None => {
                return Err(MachineError::AddressOutOfRange);
            },
        };
        let mut out = String::new();
        let mut k: u16 = ptr;
        while k < end
            invariant
                self.wf(),
                buf == self.mem.buffer@,
                ptr <= k <= end,
                end < MEMORY_SIZE,
                str_end(buf, ptr as int) == Some(end as int),
                out@ == str_chars(buf, ptr as int, k as int),
            decreases end - k,
        {
            let w = self.mem.read(k);
            let c = match char_from_u32(w as u32) {
                Some(c) => c,
                None => '\u{FFFD}',
            };
            proof {
                assert(c == word_char(w));
            }
            push_char(&mut out, c);
            proof {
                assert(out@ =~= str_chars(buf, ptr as int, k + 1 as int));
            }
            k = k + 1;
        }
        Ok(out)
    }

    /// Address of the first zero word at or after `ptr`, if any.
    fn find_terminator(&self, ptr: u16) -> (r: Option<u16>)
        requires
            self.wf(),
        ensures
            r matches Some(e) ==> ptr <= e < MEMORY_SIZE && str_end(self.mem.buffer@, ptr as int)
                == Some(e as int),
            r is None ==> str_end(self.mem.buffer@, ptr as int) is None,
    {
        let ghost buf = self.mem.buffer@;
        let mut i: u16 = ptr;
        while i < MEMORY_SIZE
            invariant
                self.wf(),
                buf == self.mem.buffer@,
                ptr <= i <= MEMORY_SIZE,
                str_end(buf, ptr as int) == str_end(buf, i as int),
            decreases MEMORY_SIZE - i,
        {
            if self.mem.read(i) == 0 {
                return Some(i);
            }
            proof {
                assert(str_end(buf, i as int) == str_end(buf, i + 1 as int));
            }
            i = i + 1;
        }
        None
    }

    /// Executes one instruction: fetch at the program counter, decode,
    /// dispatch. A halted or faulted machine does not change. The whole
    /// transition is pinned by [`step_rel`].
    pub fn step(&mut self) -> (r: Result<StepResult, MachineError>)
        requires
            old(self).wf(),
        ensures
            final(self).wf(),
            step_rel(*old(self), *final(self), r),
    {
        match self.state {
            MachineState::Halted => { return Ok(StepResult::Halted); },
            MachineState::Faulted => { return Ok(StepResult::Halted); },
            _ => {},
        }
        let pc = self.pc;
        if pc >= MEMORY_SIZE {
            self.state = MachineState::Faulted;
            return Err(MachineError::AddressOutOfRange);
        }
        let opcode = self.mem.read(pc);
        let imm = opcode == 0x01 || (0x05 <= opcode && opcode <= 0x0B);
        let operand: u16;
        if imm {
            if pc + 1 >= MEMORY_SIZE {
                self.state = MachineState::Faulted;
                return Err(MachineError::AddressOutOfRange);
            }
            operand = self.mem.read(pc + 1);
        } else {
            operand = 0;
        }
        let op_opt = decode_exec(opcode, operand);
        let op = match op_opt {
            Some(op) => op,
            None => {
                self.state = MachineState::Faulted;
                return Err(MachineError::InvalidOpcode);
            },
        };
        let next: u16 = if imm { pc + 2 } else { pc + 1 };
        match op {
            Op::Noop => {
                self.pc = next;
                self.state = MachineState::Running;
                Ok(StepResult::Continued)
            },
            Op::Halt | Op::Eof => {
                self.pc = next;
                self.state = MachineState::Halted;
                self.events.push(Event::Halt);
                Ok(StepResult::Halted)
            },
            Op::Push(v) => self.push_and_advance(v, next),
            Op::LoadString(a) => self.push_and_advance(a, next),
            Op::Pop => {
                if self.sp < STACK_ORIGIN {
                    self.sp = self.sp + 1;
                    self.pc = next;
                    self.state = MachineState::Running;
                    Ok(StepResult::Continued)
                } else {
                    self.state = MachineState::Faulted;
                    Err(MachineError::StackUnderflow)
                }
            },
            Op::Dup => {
                if self.sp >= STACK_ORIGIN {
                    self.state = MachineState::Faulted;
                    Err(MachineError::StackUnderflow)
                } else if self.sp < STACK_FLOOR {
                    self.state = MachineState::Faulted;
                    Err(MachineError::StackOverflow)
                } else {
                    let top = self.mem.read(self.sp + 1);
                    self.push_and_advance(top, next)
                }
            },
            Op::Swap => {
                if self.sp <= STACK_ORIGIN - 2 {
                    let a = self.mem.read(self.sp + 1);
                    let b = self.mem.read(self.sp + 2);
                    self.mem.write(self.sp + 1, b);
                    self.mem.write(self.sp + 2, a);
                    self.pc = next;
                    self.state = MachineState::Running;
                    Ok(StepResult::Continued)
                } else {
                    self.state = MachineState::Faulted;
                    Err(MachineError::StackUnderflow)
                }
            },
            Op::Load(a) => {
                if a >= MEMORY_SIZE {
                    self.state = MachineState::Faulted;
                    Err(MachineError::AddressOutOfRange)
                } else if self.sp < STACK_FLOOR {
                    self.state = MachineState::Faulted;
                    Err(MachineError::StackOverflow)
                } else {
                    let v = self.mem.read(a);
                    self.push_and_advance(v, next)
                }
            },
            Op::Store(a) => {
                if self.sp >= STACK_ORIGIN {
                    self.state = MachineState::Faulted;
                    Err(MachineError::StackUnderflow)
                } else if a >= MEMORY_SIZE {
                    self.state = MachineState::Faulted;
                    Err(MachineError::AddressOutOfRange)
                } else {
                    let v = self.mem.read(self.sp + 1);
                    self.mem.write(a, v);
                    self.sp = self.sp + 1;
                    self.pc = next;
                    self.state = MachineState::Running;
                    Ok(StepResult::Continued)
                }
            },
            Op::Jump(a) => {
                let t = CODE_START as u32 + a as u32;
                if t >= MEMORY_SIZE as u32 {
                    self.state = MachineState::Faulted;
                    Err(MachineError::AddressOutOfRange)
                } else {
                    self.pc = t as u16;
                    self.state = MachineState::Running;
                    Ok(StepResult::Continued)
                }
            },
            Op::JumpZero(a) => self.jump_cond(a, next, true),
            Op::JumpNotZero(a) => self.jump_cond(a, next, false),
            Op::Call(a) => {
                let t = CODE_START as u32 + a as u32;
                if t >= MEMORY_SIZE as u32 {
                    self.state = MachineState::Faulted;
                    Err(MachineError::AddressOutOfRange)
                } else if self.sp < STACK_FLOOR {
                    self.state = MachineState::Faulted;
                    Err(MachineError::StackOverflow)
                } else {
                    let sp = self.sp;
                    self.mem.write(sp, next);
                    self.sp = sp - 1;
                    self.pc = t as u16;
                    self.state = MachineState::Running;
                    Ok(StepResult::Continued)
                }
            },
            Op::Return => {
                if self.sp < STACK_ORIGIN {
                    let t = self.mem.read(self.sp + 1);
                    self.sp = self.sp + 1;
                    self.pc = t;
                    self.state = MachineState::Running;
                    Ok(StepResult::Continued)
                } else {
                    self.state = MachineState::Faulted;
                    Err(MachineError::StackUnderflow)
                }
            },
            Op::Print => {
                if self.sp >= STACK_ORIGIN {
                    self.state = MachineState::Faulted;
                    Err(MachineError::StackUnderflow)
                } else {
                    let ptr = self.mem.read(self.sp + 1);
                    match self.read_string(ptr) {
                        Ok(text) => {
                            self.sp = self.sp + 1;
                            self.pc = next;
                            self.state = MachineState::Running;
                            self.events.push(Event::Print { text });
                            proof {
                                assert(self.events@.subrange(0, old(self).events@.len() as int)
                                    =~= old(self).events@);
                            }
                            Ok(StepResult::Continued)
                        },
                        Err(_) => {
                            self.state = MachineState::Faulted;
                            Err(MachineError::AddressOutOfRange)
                        },
                    }
                }
            },
            Op::Send => {
                if self.sp > STACK_ORIGIN - 2 {
                    self.state = MachineState::Faulted;
                    return Err(MachineError::StackUnderflow);
                }
                let n = self.mem.read(self.sp + 2);
                if self.sp as u32 + 2 + n as u32 > STACK_ORIGIN as u32 {
                    self.state = MachineState::Faulted;
                    return Err(MachineError::StackUnderflow);
                }
                let port_word = self.mem.read(self.sp + 1);
                let from = Port { block: self.id, port: port_word };
                let mut body: Vec<u16> = Vec::new();
                let sp = self.sp;
                let mut i: u16 = 0;
                while i < n
                    invariant
                        *self == *old(self),
                        self.wf(),
                        i <= n,
                        sp == self.sp,
                        sp + 2 + n <= STACK_ORIGIN,
                        body@ == Seq::new(
                            i as nat,
                            |k: int| self.mem.buffer@[sp + 2 + n - k],
                        ),
                    decreases n - i,
                {
                    let addr = (sp as u32 + 2 + n as u32 - i as u32) as u16;
                    body.push(self.mem.read(addr));
                    proof {
                        assert(body@ =~= Seq::new(
                            i as nat + 1,
                            |k: int| self.mem.buffer@[sp + 2 + n - k],
                        ));
                    }
                    i = i + 1;
                }
                self.outbox.push(Message { port: from, action: Action::Data { body } });
                self.events.push(Event::Send { port: from });
                self.sp = (sp as u32 + 2 + n as u32) as u16;
                self.pc = next;
                self.state = MachineState::Running;
                proof {
                    assert(self.outbox@.subrange(0, old(self).outbox@.len() as int)
                        =~= old(self).outbox@);
                }
                Ok(StepResult::Continued)
            },
        }
    }

    /// Pushes `v` and moves the program counter to `next`; a full stack
    /// faults with overflow.
    fn push_and_advance(&mut self, v: u16, next: u16) -> (r: Result<StepResult, MachineError>)
        requires
            old(self).wf(),
        ensures
            final(self).wf(),
            old(self).sp >= STACK_FLOOR ==> ok_pushed(*old(self), *final(self), next, v)
                && continued(r),
            old(self).sp < STACK_FLOOR ==> faulted(
                *old(self),
                *final(self),
                r,
                MachineError::StackOverflow,
            ),
    {
        if self.sp >= STACK_FLOOR {
            let sp = self.sp;
            self.mem.write(sp, v);
            self.sp = sp - 1;
            self.pc = next;
            self.state = MachineState::Running;
            Ok(StepResult::Continued)
        } else {
            self.state = MachineState::Faulted;
            Err(MachineError::StackOverflow)
        }
    }

    /// Pops the condition and branches to `CODE_START + a` when its zeroness
    /// matches `on_zero`, otherwise falls through to `next`.
    fn jump_cond(&mut self, a: u16, next: u16, on_zero: bool) -> (r: Result<
        StepResult,
        MachineError,
    >)
        requires
            old(self).wf(),
        ensures
            final(self).wf(),
            jump_cond_rel(*old(self), *final(self), r, a, next, on_zero),
    {
        if self.sp >= STACK_ORIGIN {
            self.state = MachineState::Faulted;
            return Err(MachineError::StackUnderflow);
        }
        let cond = self.mem.read(self.sp + 1);
        let taken = if on_zero { cond == 0 } else { cond != 0 };
        if taken {
            let t = CODE_START as u32 + a as u32;
            if t >= MEMORY_SIZE as u32 {
                self.state = MachineState::Faulted;
                return Err(MachineError::AddressOutOfRange);
            }
            self.pc = t as u16;
        } else {
            self.pc = next;
        }
        self.sp = self.sp + 1;
        self.state = MachineState::Running;
        Ok(StepResult::Continued)
    }

    /// Resets the machine and steps it until it halts, per [`ran_from`]: a
    /// failure faults the machine, and a program still running after
    /// [`RUN_CYCLE_LIMIT`] instructions is reported as hanging.
    pub fn run(&mut self) -> (r: Result<(), MachineError>)
        requires
            old(self).wf(),
        ensures
            final(self).wf(),
            final(self).id == old(self).id,
            final(self).inbox@ == old(self).inbox@,
            final(self).mem.buffer@.len() == old(self).mem.buffer@.len(),
            ran_from(*old(self), *final(self), r),
            r is Ok ==> final(self).state is Halted && final(self).events@.len() > 0
                && final(self).events@.last() == Event::Halt,
            r matches Err(e) && e != MachineError::HangingProgram ==> final(self).state
                is Faulted,
    {
        self.ready();
        let ghost r0 = *self;
        let mut steps: u32 = 0;
        while steps < RUN_CYCLE_LIMIT
            invariant
                self.wf(),
                self.id == old(self).id,
                self.inbox@ == old(self).inbox@,
                self.mem.buffer@.len() == old(self).mem.buffer@.len(),
                self.state is Ready || self.state is Running,
                readied_from(*old(self), r0),
                steps <= RUN_CYCLE_LIMIT,
                steps_to(r0, *self, steps as nat),
            decreases RUN_CYCLE_LIMIT - steps,
        {
            let ghost pre = *self;
            match self.step() {
                Ok(StepResult::Halted) => {
                    proof {
                        assert(step_rel(pre, *self, Ok(StepResult::Halted)));
                        assert(steps_to(r0, pre, steps as nat));
                    }
                    return Ok(());
                },
                Ok(StepResult::Continued) => {
                    proof {
                        lemma_steps_to_snoc(r0, pre, *self, steps as nat);
                    }
                    steps = steps + 1;
                },
                Err(e) => {
                    proof {
                        assert(step_rel(pre, *self, Err(e)));
                        assert(steps_to(r0, pre, steps as nat));
                    }
                    return Err(e);
                },
            }
        }
        proof {
            assert(steps_to(r0, *self, RUN_CYCLE_LIMIT as nat));
        }
        Err(MachineError::HangingProgram)
    }
}

/// Decodes an opcode word and its candidate operand word.
fn decode_exec(opcode: u16, operand: u16) -> (r: Option<Op>)
    ensures
        r == decode_op(opcode, operand),
{
    if opcode == 0x00 {
        Some(Op::Eof)
    } else if opcode == 0x01 {
        Some(Op::Push(operand))
    } else if opcode == 0x02 {
        Some(Op::Pop)
    } else if opcode == 0x03 {
        Some(Op::Dup)
    } else if opcode == 0x04 {
        Some(Op::Swap)
    } else if opcode == 0x05 {
        Some(Op::Load(operand))
    } else if opcode == 0x06 {
        Some(Op::Store(operand))
    } else if opcode == 0x07 {
        Some(Op::LoadString(operand))
    } else if opcode == 0x08 {
        Some(Op::Jump(operand))
    } else if opcode == 0x09 {
        Some(Op::JumpZero(operand))
    } else if opcode == 0x0A {
        Some(Op::JumpNotZero(operand))
    } else if opcode == 0x0B {
        Some(Op::Call(operand))
    } else if opcode == 0x0C {
        Some(Op::Return)
    } else if opcode == 0x0D {
        Some(Op::Print)
    } else if opcode == 0x0E {
        Some(Op::Send)
    } else if opcode == 0x0F {
        Some(Op::Halt)
    } else if opcode == 0x10 {
        Some(Op::Noop)
    } else {
        None
    }
}

/// The `i`-th stack word from the top (0 = topmost); zero once below the
/// bottom of the stack.
pub open spec fn stack_word(m: Machine, i: int) -> u16 {
    if m.sp + 1 + i <= STACK_ORIGIN {
        m.mem.buffer@[m.sp + 1 + i]
    } else {
        0
    }
}

/// The memory after the string entries of a symbol table, in table order,
/// were each written at their recorded offset (entries without an offset, or
/// that would not fit, leave memory as it was at their turn).
pub open spec fn place_strings(
    mem: Seq<u16>,
    offs: Seq<(String, u16)>,
    entries: Seq<(String, String)>,
) -> Seq<u16>
    decreases entries.len(),
{
    if entries.len() == 0 {
        mem
    } else {
        place_strings(place_one_string(mem, offs, entries[0]), offs, entries.drop_first())
    }
}

/// One string entry written, when it has an offset and fits.
pub open spec fn place_one_string(
    mem: Seq<u16>,
    offs: Seq<(String, u16)>,
    entry: (String, String),
) -> Seq<u16> {
    match lookup(offs, entry.0@) {
        Some(off) => if off + string_words(entry.1@).len() <= mem.len() {
            place_words(mem, off as int, string_words(entry.1@))
        } else {
            mem
        },
        None => mem,
    }
}

/// The memory after the data entries of a symbol table, in table order.
pub open spec fn place_data(
    mem: Seq<u16>,
    offs: Seq<(String, u16)>,
    entries: Seq<(String, Vec<u16>)>,
) -> Seq<u16>
    decreases entries.len(),
{
    if entries.len() == 0 {
        mem
    } else {
        place_data(place_one_data(mem, offs, entries[0]), offs, entries.drop_first())
    }
}

/// One data entry written, when it has an offset and fits.
pub open spec fn place_one_data(
    mem: Seq<u16>,
    offs: Seq<(String, u16)>,
    entry: (String, Vec<u16>),
) -> Seq<u16> {
    match lookup(offs, entry.0@) {
        Some(off) => if off + entry.1@.len() <= mem.len() {
            place_words(mem, off as int, entry.1@)
        } else {
            mem
        },
        None => mem,
    }
}

proof fn lemma_place_strings_push(
    mem: Seq<u16>,
    offs: Seq<(String, u16)>,
    entries: Seq<(String, String)>,
    entry: (String, String),
)
    ensures
        place_strings(mem, offs, entries.push(entry)) == place_one_string(
            place_strings(mem, offs, entries),
            offs,
            entry,
        ),
    decreases entries.len(),
{
    let p = entries.push(entry);
    if entries.len() == 0 {
        assert(p.drop_first() =~= Seq::<(String, String)>::empty());
        assert(p[0] == entry);
        assert(place_strings(mem, offs, p) == place_strings(
            place_one_string(mem, offs, entry),
            offs,
            p.drop_first(),
        ));
        assert(place_strings(place_one_string(mem, offs, entry), offs, p.drop_first())
            == place_one_string(mem, offs, entry));
    } else {
        assert(p[0] == entries[0]);
        assert(p.drop_first() =~= entries.drop_first().push(entry));
        let x = place_one_string(mem, offs, entries[0]);
        assert(place_strings(mem, offs, p) == place_strings(x, offs, p.drop_first()));
        lemma_place_strings_push(x, offs, entries.drop_first(), entry);
        assert(place_strings(mem, offs, entries) == place_strings(x, offs, entries.drop_first()));
    }
}

proof fn lemma_place_data_push(
    mem: Seq<u16>,
    offs: Seq<(String, u16)>,
    entries: Seq<(String, Vec<u16>)>,
    entry: (String, Vec<u16>),
)
    ensures
        place_data(mem, offs, entries.push(entry)) == place_one_data(
            place_data(mem, offs, entries),
            offs,
            entry,
        ),
    decreases entries.len(),
{
    let p = entries.push(entry);
    if entries.len() == 0 {
        assert(p.drop_first() =~= Seq::<(String, Vec<u16>)>::empty());
        assert(p[0] == entry);
        assert(place_data(mem, offs, p) == place_data(
            place_one_data(mem, offs, entry),
            offs,
            p.drop_first(),
        ));
        assert(place_data(place_one_data(mem, offs, entry), offs, p.drop_first())
            == place_one_data(mem, offs, entry));
    } else {
        assert(p[0] == entries[0]);
        assert(p.drop_first() =~= entries.drop_first().push(entry));
        let x = place_one_data(mem, offs, entries[0]);
        assert(place_data(mem, offs, p) == place_data(x, offs, p.drop_first()));
        lemma_place_data_push(x, offs, entries.drop_first(), entry);
        assert(place_data(mem, offs, entries) == place_data(x, offs, entries.drop_first()));
    }
}

/// The stored words of a string literal: each character truncated to a word,
/// then the zero terminator.
fn text_words(text: &String) -> (r: Vec<u16>)
    ensures
        r@ == string_words(text@),
{
    let mut out: Vec<u16> = Vec::new();
    let s = text.as_str();
    let n = s.unicode_len();
    let mut i: usize = 0;
    while i < n
        invariant
            n == text@.len(),
            s@ == text@,
            i <= n,
            out@ == Seq::new(i as nat, |k: int| char_word(text@[k])),
        decreases n - i,
    {
        let c = s.get_char(i);
        out.push((c as u32) as u16);
        proof {
            assert(out@ =~= Seq::new(i as nat + 1, |k: int| char_word(text@[k])));
        }
        i = i + 1;
    }
    out.push(0);
    proof {
        assert(out@ =~= string_words(text@));
    }
    out
}

/// Two events record the same observation: equal tags, equal ports, and
/// printed text equal character for character.
pub open spec fn same_event(a: Event, b: Event) -> bool {
    match (a, b) {
        (Event::Print { text: t1 }, Event::Print { text: t2 }) => t1@ == t2@,
        (Event::Send { port: p1 }, Event::Send { port: p2 }) => p1 == p2,
        (Event::Halt, Event::Halt) => true,
        _ => false,
    }
}

/// Two messages carry the same observation: equal source ports and bodies
/// equal word for word.
pub open spec fn same_message(a: Message, b: Message) -> bool {
    &&& a.port == b.port
    &&& match (a.action, b.action) {
        (Action::Data { body: b1 }, Action::Data { body: b2 }) => b1@ == b2@,
    }
}

/// Two machines are observably equal: same registers, state, memory, and
/// mailbox and event histories (element for element, up to string and word
/// buffer identity).
pub open spec fn same_machine(a: Machine, b: Machine) -> bool {
    &&& a.id == b.id
    &&& a.pc == b.pc
    &&& a.sp == b.sp
    &&& a.fp == b.fp
    &&& a.state == b.state
    &&& a.mem.buffer@ == b.mem.buffer@
    &&& a.inbox@ == b.inbox@
    &&& a.outbox@.len() == b.outbox@.len()
    &&& forall|i: int| 0 <= i < a.outbox@.len()
        ==> same_message(#[trigger] a.outbox@[i], b.outbox@[i])
    &&& a.events@.len() == b.events@.len()
    &&& forall|i: int| 0 <= i < a.events@.len()
        ==> same_event(#[trigger] a.events@[i], b.events@[i])
}

/// Law: stepping is deterministic. From one machine state, any two steps
/// report the same result and reach observably equal machines — so a `run`
/// and a hand-driven ready/step loop produce the same final stack and event
/// log.
pub proof fn lemma_step_deterministic(
    pre: Machine,
    post1: Machine,
    r1: Result<StepResult, MachineError>,
    post2: Machine,
    r2: Result<StepResult, MachineError>,
)
    requires
        step_rel(pre, post1, r1),
        step_rel(pre, post2, r2),
    ensures
        r1 == r2,
        same_machine(post1, post2),
{
    if pre.state is Halted || pre.state is Faulted {
        assert(same_machine(post1, post2));
    } else if pre.pc >= MEMORY_SIZE {
        assert(same_machine(post1, post2));
    } else {
        let opcode = pre.mem.buffer@[pre.pc as int];
        if is_imm_opcode(opcode) && pre.pc + 1 >= MEMORY_SIZE {
            assert(same_machine(post1, post2));
        } else {
            let operand = if is_imm_opcode(opcode) {
                pre.mem.buffer@[pre.pc + 1]
            } else {
                0
            };
            match decode_op(opcode, operand) {
                None => {
                    assert(same_machine(post1, post2));
                },
                Some(op) => {
                    lemma_op_deterministic(pre, post1, r1, post2, r2, op, (pre.pc + op_size(
                        op,
                    )) as u16);
                },
            }
        }
    }
}

proof fn lemma_op_deterministic(
    pre: Machine,
    post1: Machine,
    r1: Result<StepResult, MachineError>,
    post2: Machine,
    r2: Result<StepResult, MachineError>,
    op: Op,
    next: u16,
)
    requires
        op_rel(pre, post1, r1, op, next),
        op_rel(pre, post2, r2, op, next),
    ensures
        r1 == r2,
        same_machine(post1, post2),
{
    match op {
        Op::Halt | Op::Eof => {
            assert(post1.events@ == pre.events@.push(Event::Halt));
            assert(same_machine(post1, post2));
        },
        Op::Print => {
            if pre.sp < STACK_ORIGIN {
                let ptr = pre.mem.buffer@[pre.sp + 1] as int;
                if str_end(pre.mem.buffer@, ptr) is Some {
                    assert forall|i: int| 0 <= i < post1.events@.len()
                        implies same_event(#[trigger] post1.events@[i], post2.events@[i])
                    by {
                        if i < pre.events@.len() {
                            assert(post1.events@[i]
                                == post1.events@.subrange(0, pre.events@.len() as int)[i]);
                            assert(post2.events@[i]
                                == post2.events@.subrange(0, pre.events@.len() as int)[i]);
                        }
                    }
                    assert(same_machine(post1, post2));
                }
            }
        },
        Op::Send => {
            if pre.sp + 2 <= STACK_ORIGIN
                && pre.sp + 2 + pre.mem.buffer@[pre.sp + 2] <= STACK_ORIGIN {
                assert forall|i: int| 0 <= i < post1.outbox@.len()
                    implies same_message(#[trigger] post1.outbox@[i], post2.outbox@[i])
                by {
                    if i < pre.outbox@.len() {
                        assert(post1.outbox@[i]
                            == post1.outbox@.subrange(0, pre.outbox@.len() as int)[i]);
                        assert(post2.outbox@[i]
                            == post2.outbox@.subrange(0, pre.outbox@.len() as int)[i]);
                    }
                }
                assert(same_machine(post1, post2));
            }
        },
        _ => {
            assert(same_machine(post1, post2));
        },
    }
}

} // verus!
