use vstd::prelude::*;

use crate::message::{Event, Message};

verus! {

/// The kind-specific payload of a block. Dispatch over the variants is kept
/// exhaustive so that a new kind extends every consumer.
#[derive(Debug, Clone, PartialEq)]
pub enum BlockData {
    /// A placeholder for a machine owned by the router under `machine_id`.
    MachineBlock { machine_id: u16 },
    /// A sink that keeps the most recently received data payload.
    PixelBlock { pixels: Vec<u16> },
}

/// A node of the canvas graph: a machine placeholder or a passive sink, with
/// its mailboxes and event log.
#[derive(Debug, Clone, PartialEq)]
pub struct Block {
    pub id: u16,
    pub data: BlockData,
    pub inbox: Vec<Message>,
    pub outbox: Vec<Message>,
    pub events: Vec<Event>,
}

impl Block {
    /// A fresh block with empty mailboxes and event log.
    pub fn new(id: u16, data: BlockData) -> (b: Block)
        ensures
            b.id == id,
            b.data == data,
            b.inbox@ == Seq::<Message>::empty(),
            b.outbox@ == Seq::<Message>::empty(),
            b.events@ == Seq::<Event>::empty(),
    {
        Block { id, data, inbox: Vec::new(), outbox: Vec::new(), events: Vec::new() }
    }

    /// Drains the inbox and hands its messages back in arrival order.
    pub fn consume_messages(&mut self) -> (msgs: Vec<Message>)
        ensures
            msgs@ == old(self).inbox@,
            *final(self) == (Block { inbox: final(self).inbox, ..*old(self) }),
            final(self).inbox@ == Seq::<Message>::empty(),
    {
        let mut taken: Vec<Message> = Vec::new();
        core::mem::swap(&mut taken, &mut self.inbox);
        taken
    }
}

} // verus!
