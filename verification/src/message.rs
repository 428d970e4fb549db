use vstd::prelude::*;

verus! {

/// One endpoint of a wire: a block id and a port index on that block.
#[derive(Debug, Clone, Copy, PartialEq, Eq, Structural)]
pub struct Port {
    pub block: u16,
    pub port: u16,
}

/// A directed connection between two ports.
#[derive(Debug, Clone, Copy, PartialEq, Eq, Structural)]
pub struct Wire {
    pub id: u16,
    pub source: Port,
    pub target: Port,
}

/// The payload of a message.
#[derive(Debug, Clone, PartialEq)]
pub enum Action {
    /// Raw words, e.g. pixel data for a sink block.
    Data { body: Vec<u16> },
}

/// A value moved along a wire. `port` names the source port the message was
/// emitted from; routing looks up the wire that originates there.
#[derive(Debug, Clone, PartialEq)]
pub struct Message {
    pub port: Port,
    pub action: Action,
}

/// A record of one externally observable effect of a machine.
#[derive(Debug, Clone, PartialEq)]
pub enum Event {
    /// A `Print` instruction ran; `text` is the dereferenced string.
    Print { text: String },
    /// A `Send` instruction emitted a message from the named source port.
    Send { port: Port },
    /// The machine reached `Halt` or the `Eof` terminator.
    Halt,
}

} // verus!
