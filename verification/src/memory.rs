use vstd::prelude::*;

use crate::machine_error::MachineError;

verus! {

/// Number of addressable words. Valid addresses are `0 ..= MEMORY_SIZE - 1`.
pub const MEMORY_SIZE: u16 = 0xFFFF;

/// First address of the code segment. The data segment (string literals and
/// word arrays) sits below it, starting at address 0; jump targets in the
/// instruction stream are relative to this origin.
pub const CODE_START: u16 = 0x4000;

/// Address of the first stack cell. The stack grows downward: the stack
/// pointer names the next free cell, so an empty stack has `sp == STACK_ORIGIN`
/// and the cell `STACK_ORIGIN` holds the first value pushed.
pub const STACK_ORIGIN: u16 = 0xFFFE;

/// Lowest address a stack cell may occupy; a push below it overflows.
pub const STACK_FLOOR: u16 = 0xF000;

/// `mem` with the words of `ws` laid over it starting at `off`.
pub open spec fn place_words(mem: Seq<u16>, off: int, ws: Seq<u16>) -> Seq<u16> {
    Seq::new(mem.len(), |i: int| if off <= i < off + ws.len() { ws[i - off] } else { mem[i] })
}

/// A fixed-size word-addressed memory area for one machine.
#[derive(Debug, Clone)]
pub struct Memory {
    pub buffer: Vec<u16>,
}

impl Memory {
    /// The buffer spans the whole address space.
    pub open spec fn wf(self) -> bool {
        self.buffer@.len() == MEMORY_SIZE
    }

    /// A fresh memory with every word zero.
    pub fn new() -> (m: Memory)
        ensures
            m.wf(),
            m.buffer@ == Seq::new(MEMORY_SIZE as nat, |i: int| 0u16),
    {
        let m = Memory { buffer: vec![0u16; MEMORY_SIZE as usize] };
        proof {
            assert(m.buffer@ =~= Seq::new(MEMORY_SIZE as nat, |i: int| 0u16));
        }
        m
    }

    /// Writes `val` at `addr`; an address outside the space is rejected.
    pub fn set(&mut self, addr: u16, val: u16) -> (r: Result<(), MachineError>)
        requires
            old(self).wf(),
        ensures
            final(self).wf(),
            addr < MEMORY_SIZE ==> r == Ok::<(), MachineError>(())
                && final(self).buffer@ == old(self).buffer@.update(addr as int, val),
            addr >= MEMORY_SIZE ==> r == Err::<(), MachineError>(MachineError::AddressOutOfRange)
                && final(self).buffer@ == old(self).buffer@,
    {
        if addr < MEMORY_SIZE {
            self.buffer.set(addr as usize, val);
            Ok(())
        } else {
            Err(MachineError::AddressOutOfRange)
        }
    }

    /// Writes `val` at an address already known to be in range.
    pub fn write(&mut self, addr: u16, val: u16)
        requires
            old(self).wf(),
            addr < MEMORY_SIZE,
        ensures
            final(self).wf(),
            final(self).buffer@ == old(self).buffer@.update(addr as int, val),
    {
        self.buffer.set(addr as usize, val);
    }

    /// Reads the word at an address already known to be in range.
    pub fn read(&self, addr: u16) -> (r: u16)
        requires
            self.wf(),
            addr < MEMORY_SIZE,
        ensures
            r == self.buffer@[addr as int],
    {
        self.buffer[addr as usize]
    }

    /// Writes `words` as one contiguous block starting at `at`; a block that
    /// would run past the end of the address space is rejected untouched.
    pub fn write_block(&mut self, at: u16, words: &Vec<u16>) -> (r: Result<(), MachineError>)
        requires
            old(self).wf(),
        ensures
            final(self).wf(),
            at + words@.len() <= MEMORY_SIZE ==> r == Ok::<(), MachineError>(())
                && final(self).buffer@ == place_words(old(self).buffer@, at as int, words@),
            at + words@.len() > MEMORY_SIZE ==> r == Err::<(), MachineError>(
                MachineError::AddressOutOfRange,
            ) && final(self).buffer@ == old(self).buffer@,
    {
        let n = words.len();
        if n > (MEMORY_SIZE - at) as usize {
            return Err(MachineError::AddressOutOfRange);
        }
        let mut i: usize = 0;
        while i < n
            invariant
                self.wf(),
                n == words@.len(),
                i <= n,
                at + n <= MEMORY_SIZE,
                self.buffer@ == place_words(old(self).buffer@, at as int, words@.subrange(0, i as int)),
            decreases n - i,
        {
            let ghost prev = self.buffer@;
            self.buffer.set(at as usize + i, words[i]);
            proof {
                assert(self.buffer@ =~= place_words(
                    old(self).buffer@,
                    at as int,
                    words@.subrange(0, i as int + 1),
                ));
            }
            i = i + 1;
        }
        proof {
            assert(words@.subrange(0, n as int) =~= words@);
        }
        Ok(())
    }

    /// Reads the word at `addr`; an address outside the space is rejected.
    pub fn get(&self, addr: u16) -> (r: Result<u16, MachineError>)
        requires
            self.wf(),
        ensures
            addr < MEMORY_SIZE ==> r == Ok::<u16, MachineError>(self.buffer@[addr as int]),
            addr >= MEMORY_SIZE ==> r == Err::<u16, MachineError>(MachineError::AddressOutOfRange),
    {
        if addr < MEMORY_SIZE {
            Ok(self.buffer[addr as usize])
        } else {
            Err(MachineError::AddressOutOfRange)
        }
    }
}

} // verus!
