use vstd::prelude::*;

use crate::block::{Block, BlockData};
use crate::canvas_error::CanvasError;
use crate::message::{Action, Event, Message, Port, Wire};
use crate::machine::{Machine, MachineState};
use crate::memory::{CODE_START, STACK_ORIGIN};
use crate::router::{outboxes, Router};

verus! {

/// Default ceiling on the ticks one `run` performs.
pub const DEFAULT_MAX_TICKS: u16 = 1000;

/// The first wire originating at `p`, if any.
pub open spec fn find_wire_from(wires: Seq<Wire>, p: Port) -> Option<Wire>
    decreases wires.len(),
{
    if wires.len() == 0 {
        None
    } else if wires[0].source == p {
        Some(wires[0])
    } else {
        find_wire_from(wires.drop_first(), p)
    }
}

/// The first wire sharing `s` as source or `t` as target, if any.
pub open spec fn wire_touching(wires: Seq<Wire>, s: Port, t: Port) -> Option<Wire>
    decreases wires.len(),
{
    if wires.len() == 0 {
        None
    } else if wires[0].source == s || wires[0].target == t {
        Some(wires[0])
    } else {
        wire_touching(wires.drop_first(), s, t)
    }
}

proof fn lemma_find_wire_at(wires: Seq<Wire>, p: Port, i: int)
    requires
        0 <= i < wires.len(),
        wires[i].source == p,
        forall|k: int| 0 <= k < i ==> (#[trigger] wires[k]).source != p,
    ensures
        find_wire_from(wires, p) == Some(wires[i]),
    decreases i,
{
    if i > 0 {
        assert(wires.drop_first()[i - 1] == wires[i]);
        lemma_find_wire_at(wires.drop_first(), p, i - 1);
    }
}

proof fn lemma_find_wire_none(wires: Seq<Wire>, p: Port)
    requires
        forall|k: int| 0 <= k < wires.len() ==> (#[trigger] wires[k]).source != p,
    ensures
        find_wire_from(wires, p) is None,
    decreases wires.len(),
{
    if wires.len() > 0 {
        lemma_find_wire_none(wires.drop_first(), p);
    }
}

proof fn lemma_touching_at(wires: Seq<Wire>, s: Port, t: Port, i: int)
    requires
        0 <= i < wires.len(),
        wires[i].source == s || wires[i].target == t,
        forall|k: int| 0 <= k < i
            ==> (#[trigger] wires[k]).source != s && wires[k].target != t,
    ensures
        wire_touching(wires, s, t) == Some(wires[i]),
    decreases i,
{
    if i > 0 {
        assert(wires.drop_first()[i - 1] == wires[i]);
        lemma_touching_at(wires.drop_first(), s, t, i - 1);
    }
}

proof fn lemma_touching_none_inv(wires: Seq<Wire>, s: Port, t: Port)
    requires
        wire_touching(wires, s, t) is None,
    ensures
        forall|k: int| 0 <= k < wires.len()
            ==> (#[trigger] wires[k]).source != s && wires[k].target != t,
    decreases wires.len(),
{
    if wires.len() > 0 {
        lemma_touching_none_inv(wires.drop_first(), s, t);
        assert forall|k: int| 0 <= k < wires.len()
            implies (#[trigger] wires[k]).source != s && wires[k].target != t
        by {
            if k > 0 {
                assert(wires.drop_first()[k - 1] == wires[k]);
            }
        }
    }
}

proof fn lemma_touching_none(wires: Seq<Wire>, s: Port, t: Port)
    requires
        forall|k: int| 0 <= k < wires.len()
            ==> (#[trigger] wires[k]).source != s && wires[k].target != t,
    ensures
        wire_touching(wires, s, t) is None,
    decreases wires.len(),
{
    if wires.len() > 0 {
        lemma_touching_none(wires.drop_first(), s, t);
    }
}

/// The concatenation of every block's outbox, in block order.
pub open spec fn block_outboxes(blocks: Seq<Block>) -> Seq<Message>
    decreases blocks.len(),
{
    if blocks.len() == 0 {
        Seq::empty()
    } else {
        block_outboxes(blocks.drop_last()) + blocks.last().outbox@
    }
}

/// The body of the last data message of `msgs`, if any.
pub open spec fn last_data_body(msgs: Seq<Message>) -> Option<Seq<u16>> {
    if msgs.len() == 0 {
        None
    } else {
        match msgs.last().action {
            Action::Data { body } => Some(body@),
        }
    }
}

/// `post_b` is `pre_b` with its inbox drained and its pixels replaced by the
/// last data payload of `msgs`, if any.
pub open spec fn pixel_updated(pre_b: Block, post_b: Block, msgs: Seq<Message>) -> bool {
    &&& post_b == (Block { inbox: post_b.inbox, data: post_b.data, ..pre_b })
    &&& match last_data_body(msgs) {
        Some(body) => post_b.data matches BlockData::PixelBlock { pixels } && pixels@ == body,
        None => post_b.data == pre_b.data,
    }
}

/// Drains the outbox of the block at index `i`, leaving every other one
/// untouched.
fn drain_block_outbox(blocks: &mut Vec<Block>, i: usize) -> (msgs: Vec<Message>)
    requires
        i < old(blocks)@.len(),
    ensures
        final(blocks)@.len() == old(blocks)@.len(),
        forall|k: int| 0 <= k < old(blocks)@.len() && k != i
            ==> final(blocks)@[k] == old(blocks)@[k],
        msgs@ == old(blocks)@[i as int].outbox@,
        final(blocks)@[i as int] == (Block {
            outbox: final(blocks)@[i as int].outbox,
            ..old(blocks)@[i as int]
        }),
        final(blocks)@[i as int].outbox@ == Seq::<Message>::empty(),
{
    let mut taken: Vec<Message> = Vec::new();
    core::mem::swap(&mut taken, &mut blocks[i].outbox);
    taken
}

/// Drains the inbox of the block at index `i`, leaving every other one
/// untouched.
fn consume_block_inbox(blocks: &mut Vec<Block>, i: usize) -> (msgs: Vec<Message>)
    requires
        i < old(blocks)@.len(),
    ensures
        final(blocks)@.len() == old(blocks)@.len(),
        forall|k: int| 0 <= k < old(blocks)@.len() && k != i
            ==> final(blocks)@[k] == old(blocks)@[k],
        msgs@ == old(blocks)@[i as int].inbox@,
        final(blocks)@[i as int] == (Block {
            inbox: final(blocks)@[i as int].inbox,
            ..old(blocks)@[i as int]
        }),
        final(blocks)@[i as int].inbox@ == Seq::<Message>::empty(),
{
    blocks[i].consume_messages()
}

/// Appends `m` to the inbox of the block at index `i`, leaving every other
/// one untouched.
fn push_block_inbox(blocks: &mut Vec<Block>, i: usize, m: Message)
    requires
        i < old(blocks)@.len(),
    ensures
        final(blocks)@.len() == old(blocks)@.len(),
        forall|k: int| 0 <= k < old(blocks)@.len() && k != i
            ==> final(blocks)@[k] == old(blocks)@[k],
        final(blocks)@[i as int] == (Block {
            inbox: final(blocks)@[i as int].inbox,
            ..old(blocks)@[i as int]
        }),
        final(blocks)@[i as int].inbox@ == old(blocks)@[i as int].inbox@.push(m),
        final(blocks)@[i as int].outbox@ == old(blocks)@[i as int].outbox@,
{
    blocks[i].inbox.push(m);
}

/// Replaces the pixels of the block at index `i` (already known to be a
/// pixel block), leaving every other one untouched.
fn set_block_pixels(blocks: &mut Vec<Block>, i: usize, pixels: Vec<u16>)
    requires
        i < old(blocks)@.len(),
        old(blocks)@[i as int].data is PixelBlock,
    ensures
        final(blocks)@.len() == old(blocks)@.len(),
        forall|k: int| 0 <= k < old(blocks)@.len() && k != i
            ==> final(blocks)@[k] == old(blocks)@[k],
        final(blocks)@[i as int] == (Block {
            data: final(blocks)@[i as int].data,
            ..old(blocks)@[i as int]
        }),
        final(blocks)@[i as int].data == (BlockData::PixelBlock { pixels }),
{
    blocks[i].data = BlockData::PixelBlock { pixels };
}

/// The router after `m` was appended to the inbox of the machine under
/// `id`, every other machine untouched (and nothing else changed).
pub open spec fn router_delivered(pre: Router, id: u16, m: Message, post: Router) -> bool {
    &&& post.machines@.len() == pre.machines@.len()
    &&& forall|i: int| 0 <= i < pre.machines@.len() && (#[trigger] pre.machines@[i]).id != id
        ==> post.machines@[i] == pre.machines@[i]
    &&& forall|i: int| 0 <= i < pre.machines@.len() && (#[trigger] pre.machines@[i]).id == id
        ==> post.machines@[i] == (Machine {
            inbox: post.machines@[i].inbox,
            ..pre.machines@[i]
        }) && post.machines@[i].inbox@ == pre.machines@[i].inbox@.push(m)
}

/// One pending message delivered along the wire starting at its source
/// port: into the router's machine for a machine block, into the block's
/// inbox otherwise, or dropped when the target block does not exist. Holds
/// only when the port has a wire.
pub open spec fn delivered_one(pre: Canvas, m: Message, post: Canvas) -> bool {
    match find_wire_from(pre.wires@, m.port) {
        None => false,
        Some(w) => {
            let t = w.target.block as int;
            if t < pre.blocks@.len() {
                if pre.blocks@[t].data is MachineBlock {
                    &&& post == (Canvas { router: post.router, ..pre })
                    &&& router_delivered(
                        pre.router,
                        pre.blocks@[t].data->machine_id,
                        m,
                        post.router,
                    )
                } else {
                    &&& post == (Canvas { blocks: post.blocks, ..pre })
                    &&& post.blocks@.len() == pre.blocks@.len()
                    &&& forall|k: int| 0 <= k < pre.blocks@.len() && k != t
                        ==> post.blocks@[k] == pre.blocks@[k]
                    &&& post.blocks@[t] == (Block {
                        inbox: post.blocks@[t].inbox,
                        ..pre.blocks@[t]
                    })
                    &&& post.blocks@[t].inbox@ == pre.blocks@[t].inbox@.push(m)
                }
            } else {
                post == pre
            }
        },
    }
}

/// Every message of `msgs` delivered in order per [`delivered_one`];
/// routing stops at the first message whose port has no wire, with
/// `DisconnectedPort` for that port and the earlier deliveries kept.
pub open spec fn deliver_rel(
    pre: Canvas,
    msgs: Seq<Message>,
    post: Canvas,
    r: Result<(), CanvasError>,
) -> bool
    decreases msgs.len(),
{
    if msgs.len() == 0 {
        post == pre && r == Ok::<(), CanvasError>(())
    } else if find_wire_from(pre.wires@, msgs[0].port) is None {
        post == pre && r == Err::<(), CanvasError>(
            CanvasError::DisconnectedPort { port: msgs[0].port },
        )
    } else {
        exists|mid: Canvas|
            #[trigger] delivered_one(pre, msgs[0], mid) && deliver_rel(
                mid,
                msgs.drop_first(),
                post,
                r,
            )
    }
}

/// `post` is `pre` with every block outbox and every machine outbox drained
/// and nothing else changed.
pub open spec fn drained_outboxes(pre: Canvas, post: Canvas) -> bool {
    &&& post == (Canvas { blocks: post.blocks, router: post.router, ..pre })
    &&& post.blocks@.len() == pre.blocks@.len()
    &&& forall|i: int| 0 <= i < pre.blocks@.len()
        ==> #[trigger] post.blocks@[i] == (Block {
            outbox: post.blocks@[i].outbox,
            ..pre.blocks@[i]
        }) && post.blocks@[i].outbox@ == Seq::<Message>::empty()
    &&& post.router.machines@.len() == pre.router.machines@.len()
    &&& forall|i: int| 0 <= i < pre.router.machines@.len()
        ==> #[trigger] post.router.machines@[i] == (Machine {
            outbox: post.router.machines@[i].outbox,
            ..pre.router.machines@[i]
        }) && post.router.machines@[i].outbox@ == Seq::<Message>::empty()
}

/// The messages pending on a canvas: block outboxes in block order, then
/// machine outboxes in machine order.
pub open spec fn pending(c: Canvas) -> Seq<Message> {
    block_outboxes(c.blocks@) + outboxes(c.router.machines@)
}

/// `post` and `rr` are the outcome of the routing phase on `pre`: every
/// outbox drained, then each pending message delivered per [`deliver_rel`].
pub open spec fn routed(pre: Canvas, post: Canvas, rr: Result<(), CanvasError>) -> bool {
    exists|drained: Canvas|
        #[trigger] drained_outboxes(pre, drained) && deliver_rel(drained, pending(pre), post, rr)
}

/// `post` is `pre` after the consume phase: each machine block's inbox
/// drained, each pixel block's inbox drained and its pixels replaced by the
/// last data payload it received; nothing else changes.
pub open spec fn consumed_rel(pre: Canvas, post: Canvas) -> bool {
    &&& post == (Canvas { blocks: post.blocks, ..pre })
    &&& post.blocks@.len() == pre.blocks@.len()
    &&& forall|i: int| 0 <= i < pre.blocks@.len()
        && (#[trigger] pre.blocks@[i]).data is MachineBlock
        ==> post.blocks@[i] == (Block { inbox: post.blocks@[i].inbox, ..pre.blocks@[i] })
            && post.blocks@[i].inbox@ == Seq::<Message>::empty()
    &&& forall|i: int| 0 <= i < pre.blocks@.len()
        && (#[trigger] pre.blocks@[i]).data is PixelBlock
        ==> pixel_updated(pre.blocks@[i], post.blocks@[i], pre.blocks@[i].inbox@)
            && post.blocks@[i].inbox@ == Seq::<Message>::empty()
}

/// The router after one collective step: every machine stepped once per
/// `step_rel`, ids kept; `sr` is `Ok` when no machine failed, else a failure
/// some machine's step reported.
pub open spec fn router_stepped(
    pre: Router,
    post: Router,
    sr: Result<(), crate::machine_error::MachineError>,
) -> bool {
    &&& post.machines@.len() == pre.machines@.len()
    &&& forall|i: int| 0 <= i < pre.machines@.len()
        ==> #[trigger] crate::router::stepped(pre.machines@[i], post.machines@[i])
    &&& forall|i: int| 0 <= i < pre.machines@.len()
        ==> (#[trigger] post.machines@[i]).id == pre.machines@[i].id
    &&& sr is Ok ==> forall|i: int| 0 <= i < pre.machines@.len()
        ==> #[trigger] crate::router::stepped_ok(pre.machines@[i], post.machines@[i])
    &&& sr matches Err(e) ==> exists|i: int| 0 <= i < pre.machines@.len()
        && #[trigger] crate::machine::step_rel(pre.machines@[i], post.machines@[i], Err(e))
}

/// `post` and `r` are the outcome of the step phase on `pre`: nothing if the
/// router is already halted, else one collective router step, a failure
/// surfaced as `MachineError`.
pub open spec fn step_phase(pre: Canvas, post: Canvas, r: Result<(), CanvasError>) -> bool {
    if pre.router.all_halted() {
        post == pre && r == Ok::<(), CanvasError>(())
    } else {
        &&& post == (Canvas { router: post.router, ..pre })
        &&& ((router_stepped(pre.router, post.router, Ok(())) && r == Ok::<(), CanvasError>(()))
            || (exists|cause: crate::machine_error::MachineError|
            #[trigger] router_stepped(pre.router, post.router, Err(cause)) && r == Err::<
                (),
                CanvasError,
            >(CanvasError::MachineError { cause })))
    }
}

/// One whole tick: route, consume, step, in that order; a routing failure
/// stops the tick at the routed state.
pub open spec fn tick_rel(pre: Canvas, post: Canvas, r: Result<(), CanvasError>) -> bool {
    ||| (r is Err && routed(pre, post, r))
    ||| exists|a: Canvas, b: Canvas|
        #[trigger] consumed_rel(a, b) && routed(pre, a, Ok(())) && step_phase(b, post, r)
}

/// `post` is `pre` with every router machine reset by `ready` and nothing
/// else changed.
pub open spec fn router_readied(pre: Canvas, post: Canvas) -> bool {
    &&& post == (Canvas { router: post.router, ..pre })
    &&& post.router.machines@.len() == pre.router.machines@.len()
    &&& forall|i: int| 0 <= i < pre.router.machines@.len()
        ==> #[trigger] post.router.machines@[i] == (Machine {
            pc: CODE_START,
            sp: STACK_ORIGIN,
            fp: 0,
            state: MachineState::Ready,
            events: post.router.machines@[i].events,
            ..pre.router.machines@[i]
        }) && post.router.machines@[i].events@ == Seq::<crate::message::Event>::empty()
}

/// `post` is reached from `pre` by exactly `n` ticks that all succeeded.
pub open spec fn ticks_to(pre: Canvas, post: Canvas, n: nat) -> bool
    decreases n,
{
    if n == 0 {
        post == pre
    } else {
        exists|mid: Canvas|
            #[trigger] tick_rel(pre, mid, Ok(())) && ticks_to(mid, post, (n - 1) as nat)
    }
}

/// Appending one successful tick to a chain of `n` extends it to `n + 1`.
pub proof fn lemma_ticks_to_snoc(a: Canvas, b: Canvas, c: Canvas, n: nat)
    requires
        ticks_to(a, b, n),
        tick_rel(b, c, Ok(())),
    ensures
        ticks_to(a, c, n + 1),
    decreases n,
{
    if n == 0 {
        assert(b == a);
        assert(ticks_to(c, c, 0));
        assert(ticks_to(a, c, 1));
    } else {
        let mid = choose|mid: Canvas|
            #[trigger] tick_rel(a, mid, Ok(())) && ticks_to(mid, b, (n - 1) as nat);
        lemma_ticks_to_snoc(mid, b, c, (n - 1) as nat);
        assert(ticks_to(a, c, n + 1));
    }
}

/// `post` and `r` are the outcome of one whole `run`: machines readied, a
/// chain of successful ticks (early-stopped on halt or stopped by the tick
/// ceiling), then one final tick whose result is `r`.
pub open spec fn run_rel(pre: Canvas, post: Canvas, r: Result<(), CanvasError>) -> bool {
    exists|a: Canvas, b: Canvas, k: nat|
        {
            &&& router_readied(pre, a)
            &&& #[trigger] ticks_to(a, b, k)
            &&& k < if pre.max_ticks == 0 {
                1nat
            } else {
                pre.max_ticks as nat
            }
            &&& tick_rel(b, post, r)
        }
}

/// The top-level container: blocks, wires, the router, and the tick ceiling.
#[derive(Debug, Clone)]
pub struct Canvas {
    pub blocks: Vec<Block>,
    pub wires: Vec<Wire>,
    pub router: Router,
    /// Upper bound on the ticks one `run` performs; 1000 by default.
    pub max_ticks: u16,
}

/// Effect of one `connect` call: rejects a self-wire, coalesces with the
/// first wire sharing the source or the target, rejects a missing endpoint
/// block, and otherwise appends a fresh wire whose id is its position.
pub open spec fn connect_rel(
    pre: Canvas,
    post: Canvas,
    s: Port,
    t: Port,
    r: Result<u16, CanvasError>,
) -> bool {
    if s == t {
        post == pre && r == Err::<u16, CanvasError>(CanvasError::CannotWireToItself { port: s })
    } else {
        match wire_touching(pre.wires@, s, t) {
            Some(w) => post == pre && r == Ok::<u16, CanvasError>(w.id),
            None => if s.block >= pre.blocks@.len() {
                post == pre && r == Err::<u16, CanvasError>(
                    CanvasError::BlockNotFound { id: s.block },
                )
            } else if t.block >= pre.blocks@.len() {
                post == pre && r == Err::<u16, CanvasError>(
                    CanvasError::BlockNotFound { id: t.block },
                )
            } else {
                &&& post == (Canvas { wires: post.wires, ..pre })
                &&& post.wires@ == pre.wires@.push(
                    Wire { id: pre.wires@.len() as u16, source: s, target: t },
                )
                &&& r == Ok::<u16, CanvasError>(pre.wires@.len() as u16)
            },
        }
    }
}

impl Canvas {
    /// Every block's id is its position; wire ids are their positions and no
    /// two wires share a source or share a target; every machine block names
    /// a machine the router owns; router ids stay below the block count.
    pub open spec fn wf(self) -> bool {
        &&& self.blocks@.len() <= 0xFFFF
        &&& self.wires@.len() <= 0xFFFF
        &&& forall|i: int| 0 <= i < self.blocks@.len()
            ==> (#[trigger] self.blocks@[i]).id == i as u16
        &&& forall|i: int| 0 <= i < self.wires@.len()
            ==> (#[trigger] self.wires@[i]).id == i as u16
        &&& forall|i: int, j: int|
            0 <= i < j < self.wires@.len() ==> (#[trigger] self.wires@[i]).source
                != (#[trigger] self.wires@[j]).source && self.wires@[i].target
                != self.wires@[j].target
        &&& forall|i: int| 0 <= i < self.blocks@.len()
            ==> ((#[trigger] self.blocks@[i]).data matches BlockData::MachineBlock { machine_id }
                ==> self.router.contains_id(machine_id))
        &&& forall|i: int| 0 <= i < self.router.machines@.len()
            ==> (#[trigger] self.router.machines@[i]).id < self.blocks@.len()
        &&& self.router.wf()
    }

    /// An empty canvas with the default tick ceiling.
    pub fn new() -> (c: Canvas)
        ensures
            c.wf(),
            c.blocks@ == Seq::<Block>::empty(),
            c.wires@ == Seq::<Wire>::empty(),
            c.router.machines@.len() == 0,
            c.max_ticks == DEFAULT_MAX_TICKS,
    {
        Canvas {
            blocks: Vec::new(),
            wires: Vec::new(),
            router: Router::new(),
            max_ticks: DEFAULT_MAX_TICKS,
        }
    }

    /// The id the next block will receive: the block count.
    pub fn block_id(&self) -> (r: u16)
        requires
            self.wf(),
        ensures
            r == self.blocks@.len(),
    {
        self.blocks.len() as u16
    }

    /// Adds a machine to the router and a machine block naming it, both under
    /// the next block id.
    pub fn add_machine(&mut self) -> (r: Result<u16, CanvasError>)
        requires
            old(self).wf(),
            old(self).blocks@.len() < 0xFFFF,
        ensures
            final(self).wf(),
            r == Ok::<u16, CanvasError>(old(self).blocks@.len() as u16),
            final(self).blocks@.len() == old(self).blocks@.len() + 1,
            final(self).blocks@.subrange(0, old(self).blocks@.len() as int)
                == old(self).blocks@,
            final(self).blocks@.last().id == old(self).blocks@.len() as u16,
            final(self).blocks@.last().data == (BlockData::MachineBlock {
                machine_id: old(self).blocks@.len() as u16,
            }),
            final(self).blocks@.last().outbox@ == Seq::<Message>::empty(),
            final(self).blocks@.last().inbox@ == Seq::<Message>::empty(),
            final(self).blocks@.last().events@ == Seq::<Event>::empty(),
            final(self).router.machines@.len() == old(self).router.machines@.len() + 1,
            final(self).router.machines@.subrange(0, old(self).router.machines@.len() as int)
                == old(self).router.machines@,
            final(self).router.machines@.last().id == old(self).blocks@.len() as u16,
            final(self).router.machines@.last().state is Loaded,
            final(self).wires@ == old(self).wires@,
            final(self).max_ticks == old(self).max_ticks,
    {
        let id = self.block_id();
        self.router.add_with_id(id);
        proof {
            assert forall|i: int| 0 <= i < self.blocks@.len()
                implies ((#[trigger] self.blocks@[i]).data matches BlockData::MachineBlock {
                    machine_id,
                } ==> self.router.contains_id(machine_id))
            by {
                if self.blocks@[i].data is MachineBlock {
                    let mid = self.blocks@[i].data->machine_id;
                    assert(old(self).router.contains_id(mid));
                    let w = choose|k: int|
                        0 <= k < old(self).router.machines@.len()
                            && (#[trigger] old(self).router.machines@[k]).id == mid;
                    assert(self.router.machines@[w] == old(self).router.machines@[w]);
                    assert(self.router.contains_id(mid));
                }
            }
        }
        self.blocks.push(Block::new(id, BlockData::MachineBlock { machine_id: id }));
        proof {
            assert(final(self).blocks@.subrange(0, old(self).blocks@.len() as int)
                =~= old(self).blocks@);
            assert(final(self).router.machines@.subrange(
                0,
                old(self).router.machines@.len() as int,
            ) =~= old(self).router.machines@);
            assert(final(self).router.contains_id(id));
        }
        Ok(id)
    }

    /// Adds a block carrying `data` under the next block id.
    pub fn add_block(&mut self, data: BlockData) -> (r: Result<u16, CanvasError>)
        requires
            old(self).wf(),
            old(self).blocks@.len() < 0xFFFF,
        ensures
            final(self).wf(),
            (data matches BlockData::MachineBlock { machine_id }
                && !old(self).router.contains_id(machine_id)) ==> ({
                &&& *final(self) == *old(self)
                &&& r matches Err(e) && e == (CanvasError::MachineNotFound {
                    id: data->machine_id,
                })
            }),
            !(data matches BlockData::MachineBlock { machine_id }
                && !old(self).router.contains_id(machine_id)) ==> {
                &&& r == Ok::<u16, CanvasError>(old(self).blocks@.len() as u16)
                &&& final(self).blocks@.len() == old(self).blocks@.len() + 1
                &&& final(self).blocks@.subrange(0, old(self).blocks@.len() as int)
                    == old(self).blocks@
                &&& final(self).blocks@.last().id == old(self).blocks@.len() as u16
                &&& final(self).blocks@.last().data == data
                &&& final(self).blocks@.last().inbox@ == Seq::<Message>::empty()
                &&& final(self).blocks@.last().outbox@ == Seq::<Message>::empty()
                &&& final(self).blocks@.last().events@ == Seq::<Event>::empty()
                &&& *final(self) == (Canvas { blocks: final(self).blocks, ..*old(self) })
            },
    {
        let id = self.block_id();
        match self.add_block_with_id(id, data) {
            Ok(_) => Ok(id),
            Err(e) => Err(e),
        }
    }

    /// Validates `data` and appends a block under `id`; block ids are issued
    /// monotonically, so `id` is the current block count.
    ///
    /// A machine block is accepted whenever the router owns the named
    /// machine, even when that machine's id differs from the new block's id;
    /// only blocks created by `add_machine` are guaranteed to share their id
    /// with their machine (see `add_machine`'s ensures).
    pub fn add_block_with_id(&mut self, id: u16, data: BlockData) -> (r: Result<(), CanvasError>)
        requires
            old(self).wf(),
            id == old(self).blocks@.len(),
            old(self).blocks@.len() < 0xFFFF,
        ensures
            final(self).wf(),
            (data matches BlockData::MachineBlock { machine_id }
                && !old(self).router.contains_id(machine_id)) ==> ({
                &&& *final(self) == *old(self)
                &&& r matches Err(e) && e == (CanvasError::MachineNotFound {
                    id: data->machine_id,
                })
            }),
            !(data matches BlockData::MachineBlock { machine_id }
                && !old(self).router.contains_id(machine_id)) ==> {
                &&& r == Ok::<(), CanvasError>(())
                &&& final(self).blocks@.len() == old(self).blocks@.len() + 1
                &&& final(self).blocks@.subrange(0, old(self).blocks@.len() as int)
                    == old(self).blocks@
                &&& final(self).blocks@.last().id == id
                &&& final(self).blocks@.last().data == data
                &&& final(self).blocks@.last().inbox@ == Seq::<Message>::empty()
                &&& final(self).blocks@.last().outbox@ == Seq::<Message>::empty()
                &&& final(self).blocks@.last().events@ == Seq::<Event>::empty()
                &&& *final(self) == (Canvas { blocks: final(self).blocks, ..*old(self) })
            },
    {
        match &data {
            BlockData::MachineBlock { machine_id } => {
                if self.router.get(*machine_id).is_none() {
                    return Err(CanvasError::MachineNotFound { id: *machine_id });
                }
            },
            _ => {},
        }
        self.blocks.push(Block::new(id, data));
        proof {
            assert(final(self).blocks@.subrange(0, old(self).blocks@.len() as int)
                =~= old(self).blocks@);
        }
        Ok(())
    }

    /// Wires `source` to `target` under the rules of [`connect_rel`]: no
    /// self-wires, one wire per source and per target (a repeated connection
    /// coalesces onto the existing wire), both endpoint blocks must exist.
    pub fn connect(&mut self, source: Port, target: Port) -> (r: Result<u16, CanvasError>)
        requires
            old(self).wf(),
            source != target && wire_touching(old(self).wires@, source, target) is None
                && source.block < old(self).blocks@.len()
                && target.block < old(self).blocks@.len()
                ==> old(self).wires@.len() < 0xFFFF,
        ensures
            final(self).wf(),
            connect_rel(*old(self), *final(self), source, target, r),
    {
        if source == target {
            return Err(CanvasError::CannotWireToItself { port: source });
        }
        let n = self.wires.len();
        let mut i: usize = 0;
        while i < n
            invariant
                n == self.wires@.len(),
                i <= n,
                old(self).wf(),
                *self == *old(self),
                source != target,
                forall|k: int| 0 <= k < i ==> (#[trigger] self.wires@[k]).source != source
                    && self.wires@[k].target != target,
            decreases n - i,
        {
            let w = self.wires[i];
            if w.source == source || w.target == target {
                proof {
                    lemma_touching_at(self.wires@, source, target, i as int);
                }
                return Ok(w.id);
            }
            i = i + 1;
        }
        proof {
            lemma_touching_none(self.wires@, source, target);
        }
        if source.block as usize >= self.blocks.len() {
            return Err(CanvasError::BlockNotFound { id: source.block });
        }
        if target.block as usize >= self.blocks.len() {
            return Err(CanvasError::BlockNotFound { id: target.block });
        }
        let id = self.wires.len() as u16;
        self.wires.push(Wire { id, source, target });
        proof {
            let ws = final(self).wires@;
            assert forall|a: int, b: int| 0 <= a < b < ws.len() implies (#[trigger] ws[a]).source
                != (#[trigger] ws[b]).source && ws[a].target != ws[b].target
            by {
                if b == ws.len() - 1 {
                    assert(ws[a] == old(self).wires@[a]);
                } else {
                    assert(ws[a] == old(self).wires@[a]);
                    assert(ws[b] == old(self).wires@[b]);
                }
            }
        }
        Ok(id)
    }

    /// The block that the wire starting at `port` leads to, if that wire
    /// exists.
    pub fn port_target(&self, port: Port) -> (r: Option<u16>)
        ensures
            r == match find_wire_from(self.wires@, port) {
                Some(w) => Some(w.target.block),
                None => None::<u16>,
            },
    {
        let n = self.wires.len();
        let mut i: usize = 0;
        while i < n
            invariant
                n == self.wires@.len(),
                i <= n,
                forall|k: int| 0 <= k < i ==> (#[trigger] self.wires@[k]).source != port,
            decreases n - i,
        {
            if self.wires[i].source == port {
                proof {
                    lemma_find_wire_at(self.wires@, port, i as int);
                }
                return Some(self.wires[i].target.block);
            }
            i = i + 1;
        }
        proof {
            lemma_find_wire_none(self.wires@, port);
        }
        None
    }

    /// A shared borrow of the block under `id`.
    pub fn get_block(&mut self, id: u16) -> (r: Result<&Block, CanvasError>)
        requires
            old(self).wf(),
        ensures
            *final(self) == *old(self),
            id < old(self).blocks@.len() ==> (r matches Ok(b)
                && *b == old(self).blocks@[id as int]),
            id >= old(self).blocks@.len() ==> (r matches Err(e)
                && e == (CanvasError::BlockNotFound { id })),
    {
        if (id as usize) < self.blocks.len() {
            Ok(&self.blocks[id as usize])
        } else {
            Err(CanvasError::BlockNotFound { id })
        }
    }

    /// Drains every block's outbox and returns the messages in block order.
    fn consume_messages(&mut self) -> (msgs: Vec<Message>)
        requires
            old(self).wf(),
        ensures
            final(self).wf(),
            msgs@ == block_outboxes(old(self).blocks@),
            final(self).blocks@.len() == old(self).blocks@.len(),
            *final(self) == (Canvas { blocks: final(self).blocks, ..*old(self) }),
            forall|i: int| 0 <= i < old(self).blocks@.len()
                ==> #[trigger] final(self).blocks@[i] == (Block {
                    outbox: final(self).blocks@[i].outbox,
                    ..old(self).blocks@[i]
                }) && final(self).blocks@[i].outbox@ == Seq::<Message>::empty(),
    {
        let mut msgs: Vec<Message> = Vec::new();
        let n = self.blocks.len();
        let mut i: usize = 0;
        while i < n
            invariant
                n == self.blocks@.len(),
                n == old(self).blocks@.len(),
                i <= n,
                old(self).wf(),
                self.wf(),
                *self == (Canvas { blocks: self.blocks, ..*old(self) }),
                msgs@ == block_outboxes(old(self).blocks@.subrange(0, i as int)),
                forall|k: int| i <= k < n ==> self.blocks@[k] == old(self).blocks@[k],
                forall|k: int| 0 <= k < i
                    ==> #[trigger] self.blocks@[k] == (Block {
                        outbox: self.blocks@[k].outbox,
                        ..old(self).blocks@[k]
                    }) && self.blocks@[k].outbox@ == Seq::<Message>::empty(),
            decreases n - i,
        {
            let mut taken = drain_block_outbox(&mut self.blocks, i);
            msgs.append(&mut taken);
            proof {
                let full = old(self).blocks@;
                assert(full.subrange(0, i as int + 1).drop_last() =~= full.subrange(0, i as int));
                assert(full.subrange(0, i as int + 1).last() == full[i as int]);
            }
            i = i + 1;
        }
        proof {
            assert(old(self).blocks@.subrange(0, n as int) =~= old(self).blocks@);
        }
        msgs
    }

    /// Collects every pending message (block outboxes in block order, then
    /// machine outboxes in machine order) and delivers each along the wire
    /// starting at its source port: into the machine of a machine block, or
    /// the inbox of any other block. A message whose port has no wire stops
    /// routing with `DisconnectedPort`; messages already delivered stay
    /// delivered.
    fn route_messages(&mut self) -> (r: Result<(), CanvasError>)
        requires
            old(self).wf(),
        ensures
            final(self).wf(),
            final(self).blocks@.len() == old(self).blocks@.len(),
            final(self).wires@ == old(self).wires@,
            final(self).max_ticks == old(self).max_ticks,
            forall|i: int| 0 <= i < final(self).blocks@.len()
                ==> (#[trigger] final(self).blocks@[i]).outbox@.len() == 0,
            forall|i: int| 0 <= i < old(self).blocks@.len()
                ==> (#[trigger] final(self).blocks@[i]).data == old(self).blocks@[i].data,
            r is Err ==> ({
                &&& r matches Err(e) && e is DisconnectedPort
            }),
            r matches Err(CanvasError::DisconnectedPort { port }) ==> find_wire_from(
                old(self).wires@,
                port,
            ) is None,
            exists|drained: Canvas|
                #[trigger] drained_outboxes(*old(self), drained) && deliver_rel(
                    drained,
                    block_outboxes(old(self).blocks@) + outboxes(old(self).router.machines@),
                    *final(self),
                    r,
                ),
    {
        let mut msgs = self.consume_messages();
        let mut more = self.router.consume_messages();
        proof {
            assert forall|i: int| 0 <= i < self.blocks@.len()
                implies ((#[trigger] self.blocks@[i]).data matches BlockData::MachineBlock {
                    machine_id,
                } ==> self.router.contains_id(machine_id))
            by {
                if self.blocks@[i].data is MachineBlock {
                    let mid = self.blocks@[i].data->machine_id;
                    let w = choose|k: int|
                        0 <= k < old(self).router.machines@.len()
                            && (#[trigger] old(self).router.machines@[k]).id == mid;
                    assert(self.router.machines@[w].id == old(self).router.machines@[w].id);
                }
            }
        }
        msgs.append(&mut more);
        let ghost drained = *self;
        let ghost all = msgs@;
        proof {
            assert(drained_outboxes(*old(self), drained));
            assert(all == block_outboxes(old(self).blocks@) + outboxes(
                old(self).router.machines@,
            ));
        }
        while msgs.len() > 0
            invariant
                self.wf(),
                self.blocks@.len() == old(self).blocks@.len(),
                self.wires@ == old(self).wires@,
                self.max_ticks == old(self).max_ticks,
                forall|i: int| 0 <= i < self.blocks@.len()
                    ==> (#[trigger] self.blocks@[i]).outbox@.len() == 0,
                forall|i: int| 0 <= i < old(self).blocks@.len()
                    ==> (#[trigger] self.blocks@[i]).data == old(self).blocks@[i].data,
                drained_outboxes(*old(self), drained),
                all == block_outboxes(old(self).blocks@) + outboxes(old(self).router.machines@),
                forall|post: Canvas, rr: Result<(), CanvasError>|
                    #[trigger] deliver_rel(*self, msgs@, post, rr) ==> deliver_rel(
                        drained,
                        all,
                        post,
                        rr,
                    ),
            decreases msgs@.len(),
        {
            let ghost cur = *self;
            let ghost msgs_before = msgs@;
            let m = msgs.remove(0);
            proof {
                assert(msgs@ =~= msgs_before.drop_first());
                assert(msgs_before[0] == m);
            }
            let port = m.port;
            let target = match self.port_target(port) {
                Some(t) => t,
                None => {
                    proof {
                        assert(deliver_rel(
                            cur,
                            msgs_before,
                            cur,
                            Err(CanvasError::DisconnectedPort { port }),
                        ));
                    }
                    return Err(CanvasError::DisconnectedPort { port });
                },
            };
            if (target as usize) < self.blocks.len() {
                let machine_target: Option<u16> = match &self.blocks[target as usize].data {
                    BlockData::MachineBlock { machine_id } => Some(*machine_id),
                    _ => None,
                };
                let ghost pre_r = self.router;
                match machine_target {
                    Some(machine_id) => {
                        self.router.deliver(machine_id, m);
                        proof {
                            assert forall|i: int| 0 <= i < self.blocks@.len()
                                implies ((#[trigger] self.blocks@[i]).data
                                    matches BlockData::MachineBlock { machine_id }
                                    ==> self.router.contains_id(machine_id))
                            by {
                                if self.blocks@[i].data is MachineBlock {
                                    let mid = self.blocks@[i].data->machine_id;
                                    assert(pre_r.contains_id(mid));
                                    let w = choose|k: int|
                                        0 <= k < pre_r.machines@.len()
                                            && (#[trigger] pre_r.machines@[k]).id == mid;
                                    assert(self.router.machines@[w].id == mid);
                                }
                            }
                            assert forall|k: int| 0 <= k < self.router.machines@.len()
                                implies (#[trigger] self.router.machines@[k]).id
                                    < self.blocks@.len()
                            by {
                                assert(pre_r.machines@[k].id < self.blocks@.len());
                                if pre_r.machines@[k].id == machine_id {
                                } else {
                                    assert(self.router.machines@[k] == pre_r.machines@[k]);
                                }
                            }
                            assert(delivered_one(cur, m, *self));
                        }
                    },
                    None => {
                        let ghost pre_blocks = self.blocks@;
                        push_block_inbox(&mut self.blocks, target as usize, m);
                        proof {
                            assert forall|i: int| 0 <= i < self.blocks@.len()
                                implies ((#[trigger] self.blocks@[i]).data
                                    matches BlockData::MachineBlock { machine_id }
                                    ==> self.router.contains_id(machine_id))
                            by {
                                if self.blocks@[i].data is MachineBlock {
                                    assert(self.blocks@[i].data == pre_blocks[i].data);
                                }
                            }
                            assert(delivered_one(cur, m, *self));
                        }
                    },
                }
            } else {
                proof {
                    assert(delivered_one(cur, m, *self));
                }
            }
            proof {
                assert forall|post: Canvas, rr: Result<(), CanvasError>|
                    #[trigger] deliver_rel(*self, msgs@, post, rr) implies deliver_rel(
                    drained,
                    all,
                    post,
                    rr,
                ) by {
                    if deliver_rel(*self, msgs@, post, rr) {
                        assert(delivered_one(cur, msgs_before[0], *self));
                        assert(deliver_rel(cur, msgs_before, post, rr));
                    }
                }
            }
        }
        proof {
            assert(deliver_rel(*self, msgs@, *self, Ok(())));
        }
        Ok(())
    }

    /// Consumes the inbox of the block under `id` and applies the block
    /// kind's semantics: a machine block ignores its inbox here (the router
    /// delivered into the machine directly), a pixel block keeps the last
    /// data payload.
    pub fn tick_block(&mut self, id: u16) -> (r: Result<(), CanvasError>)
        requires
            old(self).wf(),
        ensures
            final(self).wf(),
            final(self).blocks@.len() == old(self).blocks@.len(),
            final(self).wires@ == old(self).wires@,
            final(self).max_ticks == old(self).max_ticks,
            final(self).router == old(self).router,
            *final(self) == (Canvas { blocks: final(self).blocks, ..*old(self) }),
            id >= old(self).blocks@.len() ==> ({
                &&& *final(self) == *old(self)
                &&& r matches Err(e) && e == (CanvasError::BlockNotFound { id })
            }),
            id < old(self).blocks@.len() ==> {
                &&& r == Ok::<(), CanvasError>(())
                &&& final(self).blocks@[id as int].inbox@ == Seq::<Message>::empty()
                &&& forall|k: int| 0 <= k < old(self).blocks@.len() && k != id
                    ==> final(self).blocks@[k] == old(self).blocks@[k]
                &&& (old(self).blocks@[id as int].data is PixelBlock
                    ==> pixel_updated(
                    old(self).blocks@[id as int],
                    final(self).blocks@[id as int],
                    old(self).blocks@[id as int].inbox@,
                ))
                &&& (old(self).blocks@[id as int].data is MachineBlock
                    ==> final(self).blocks@[id as int] == (Block {
                    inbox: final(self).blocks@[id as int].inbox,
                    ..old(self).blocks@[id as int]
                }))
            },
    {
        if id as usize >= self.blocks.len() {
            return Err(CanvasError::BlockNotFound { id });
        }
        let messages = consume_block_inbox(&mut self.blocks, id as usize);
        let is_pixel = match &self.blocks[id as usize].data {
            BlockData::PixelBlock { .. } => true,
            _ => false,
        };
        if is_pixel {
            let tick_r = self.tick_pixel_block(id, messages);
            match tick_r {
                Ok(_) => Ok(()),
                Err(e) => Err(e),
            }
        } else {
            Ok(())
        }
    }

    /// Replaces the pixels of the pixel block under `id` with the body of
    /// the last data message, if any; a block of another kind is left alone.
    pub fn tick_pixel_block(&mut self, id: u16, messages: Vec<Message>) -> (r: Result<
        (),
        CanvasError,
    >)
        requires
            old(self).wf(),
        ensures
            final(self).wf(),
            final(self).blocks@.len() == old(self).blocks@.len(),
            final(self).wires@ == old(self).wires@,
            final(self).max_ticks == old(self).max_ticks,
            final(self).router == old(self).router,
            *final(self) == (Canvas { blocks: final(self).blocks, ..*old(self) }),
            id >= old(self).blocks@.len() ==> ({
                &&& *final(self) == *old(self)
                &&& r matches Err(e) && e == (CanvasError::BlockNotFound { id })
            }),
            id < old(self).blocks@.len() ==> {
                &&& r == Ok::<(), CanvasError>(())
                &&& forall|k: int| 0 <= k < old(self).blocks@.len() && k != id
                    ==> final(self).blocks@[k] == old(self).blocks@[k]
                &&& (old(self).blocks@[id as int].data is PixelBlock
                    ==> pixel_updated(
                    old(self).blocks@[id as int],
                    final(self).blocks@[id as int],
                    messages@,
                ) && final(self).blocks@[id as int].inbox@
                    == old(self).blocks@[id as int].inbox@)
                &&& (!(old(self).blocks@[id as int].data is PixelBlock)
                    ==> final(self).blocks@[id as int] == old(self).blocks@[id as int])
            },
    {
        if id as usize >= self.blocks.len() {
            return Err(CanvasError::BlockNotFound { id });
        }
        let is_pixel = match &self.blocks[id as usize].data {
            BlockData::PixelBlock { .. } => true,
            _ => false,
        };
        if !is_pixel {
            return Ok(());
        }
        let mut messages = messages;
        match messages.pop() {
            Some(m) => {
                match m.action {
                    Action::Data { body } => {
                        set_block_pixels(&mut self.blocks, id as usize, body);
                    },
                }
            },
            None => {},
        }
        Ok(())
    }

    /// One scheduling cycle, in strict order: route pending messages, let
    /// every block consume its inbox, then step the router once if it is not
    /// yet halted. Whatever happens, no block is left with a pending outbox.
    pub fn tick(&mut self) -> (r: Result<(), CanvasError>)
        requires
            old(self).wf(),
        ensures
            final(self).wf(),
            final(self).blocks@.len() == old(self).blocks@.len(),
            final(self).wires@ == old(self).wires@,
            final(self).max_ticks == old(self).max_ticks,
            forall|i: int| 0 <= i < final(self).blocks@.len()
                ==> (#[trigger] final(self).blocks@[i]).outbox@.len() == 0,
            forall|i: int| 0 <= i < old(self).blocks@.len()
                && (#[trigger] old(self).blocks@[i]).data is MachineBlock
                ==> final(self).blocks@[i].data == old(self).blocks@[i].data,
            forall|i: int| 0 <= i < old(self).blocks@.len()
                ==> ((#[trigger] final(self).blocks@[i]).data is PixelBlock
                    <==> old(self).blocks@[i].data is PixelBlock),
            r matches Err(CanvasError::DisconnectedPort { port }) ==> find_wire_from(
                old(self).wires@,
                port,
            ) is None,
            tick_rel(*old(self), *final(self), r),
    {
        let route_r = self.route_messages();
        match route_r {
            Ok(_) => {},
            Err(e) => {
                proof {
                    assert(routed(*old(self), *self, Err(e)));
                }
                return Err(e);
            },
        }
        let ghost a = *self;
        proof {
            assert(pending(*old(self)) == block_outboxes(old(self).blocks@) + outboxes(
                old(self).router.machines@,
            ));
            match route_r {
                Ok(u) => {
                    assert(u == ());
                    assert(route_r == Ok::<(), CanvasError>(()));
                },
                Err(_) => {
                    assert(false);
                },
            }
            assert(routed(*old(self), a, Ok(())));
        }
        let n = self.blocks.len();
        let mut id: usize = 0;
        while id < n
            invariant
                n == self.blocks@.len(),
                id <= n,
                self.wf(),
                self.blocks@.len() == old(self).blocks@.len(),
                self.wires@ == old(self).wires@,
                self.max_ticks == old(self).max_ticks,
                forall|i: int| 0 <= i < self.blocks@.len()
                    ==> (#[trigger] self.blocks@[i]).outbox@.len() == 0,
                forall|i: int| 0 <= i < old(self).blocks@.len()
                    && (#[trigger] old(self).blocks@[i]).data is MachineBlock
                    ==> self.blocks@[i].data == old(self).blocks@[i].data,
                forall|i: int| 0 <= i < old(self).blocks@.len()
                    ==> ((#[trigger] self.blocks@[i]).data is PixelBlock
                        <==> old(self).blocks@[i].data is PixelBlock),
                n == a.blocks@.len(),
                *self == (Canvas { blocks: self.blocks, ..a }),
                forall|i: int| id <= i < n ==> self.blocks@[i] == a.blocks@[i],
                forall|i: int| 0 <= i < id && (#[trigger] a.blocks@[i]).data is MachineBlock
                    ==> self.blocks@[i] == (Block {
                        inbox: self.blocks@[i].inbox,
                        ..a.blocks@[i]
                    }) && self.blocks@[i].inbox@ == Seq::<Message>::empty(),
                forall|i: int| 0 <= i < id && (#[trigger] a.blocks@[i]).data is PixelBlock
                    ==> pixel_updated(a.blocks@[i], self.blocks@[i], a.blocks@[i].inbox@)
                        && self.blocks@[i].inbox@ == Seq::<Message>::empty(),
            decreases n - id,
        {
            let tick_r = self.tick_block(id as u16);
            match tick_r {
                Ok(_) => {},
                Err(e) => {
                    return Err(e);
                },
            }
            id = id + 1;
        }
        let ghost b = *self;
        proof {
            assert(consumed_rel(a, b));
        }
        if !self.router.is_halted() {
            let ghost pre_r = self.router;
            let step_r = self.router.step();
            proof {
                assert forall|i: int| 0 <= i < self.blocks@.len()
                    implies ((#[trigger] self.blocks@[i]).data matches BlockData::MachineBlock {
                        machine_id,
                    } ==> self.router.contains_id(machine_id))
                by {
                    if self.blocks@[i].data is MachineBlock {
                        let mid = self.blocks@[i].data->machine_id;
                        assert(pre_r.contains_id(mid));
                        let w = choose|k: int|
                            0 <= k < pre_r.machines@.len()
                                && (#[trigger] pre_r.machines@[k]).id == mid;
                        assert(self.router.machines@[w].id == mid);
                    }
                }
                assert(router_stepped(b.router, self.router, step_r));
            }
            match step_r {
                Ok(_) => {
                    proof {
                        assert(step_phase(b, *self, Ok(())));
                        assert(consumed_rel(a, b));
                    }
                },
                Err(cause) => {
                    proof {
                        assert(step_phase(b, *self, Err(CanvasError::MachineError { cause })));
                        assert(consumed_rel(a, b));
                    }
                    return Err(CanvasError::MachineError { cause });
                },
            }
        } else {
            proof {
                assert(step_phase(b, *self, Ok(())));
            }
        }
        Ok(())
    }

    /// Readies every machine, ticks until the router reports halted or the
    /// tick ceiling is reached, and always flushes once more with a final
    /// tick.
    pub fn run(&mut self) -> (r: Result<(), CanvasError>)
        requires
            old(self).wf(),
        ensures
            final(self).wf(),
            final(self).blocks@.len() == old(self).blocks@.len(),
            final(self).wires@ == old(self).wires@,
            final(self).max_ticks == old(self).max_ticks,
            r is Ok ==> forall|i: int| 0 <= i < final(self).blocks@.len()
                ==> (#[trigger] final(self).blocks@[i]).outbox@.len() == 0,
            r matches Err(CanvasError::DisconnectedPort { port }) ==> find_wire_from(
                old(self).wires@,
                port,
            ) is None,
            run_rel(*old(self), *final(self), r),
    {
        self.router.ready();
        proof {
            assert forall|i: int| 0 <= i < self.blocks@.len()
                implies ((#[trigger] self.blocks@[i]).data matches BlockData::MachineBlock {
                    machine_id,
                } ==> self.router.contains_id(machine_id))
            by {
                if self.blocks@[i].data is MachineBlock {
                    let mid = self.blocks@[i].data->machine_id;
                    assert(old(self).router.contains_id(mid));
                    let w = choose|k: int|
                        0 <= k < old(self).router.machines@.len()
                            && (#[trigger] old(self).router.machines@[k]).id == mid;
                    assert(self.router.machines@[w].id == mid);
                }
            }
        }
        let ghost a = *self;
        proof {
            assert(router_readied(*old(self), a));
        }
        let mut t: u16 = 1;
        while t < self.max_ticks
            invariant
                self.wf(),
                self.blocks@.len() == old(self).blocks@.len(),
                self.wires@ == old(self).wires@,
                self.max_ticks == old(self).max_ticks,
                t <= self.max_ticks || self.max_ticks == 0,
                t >= 1,
                self.max_ticks == 0 ==> t == 1,
                router_readied(*old(self), a),
                ticks_to(a, *self, (t - 1) as nat),
            decreases self.max_ticks - t,
        {
            if self.router.is_halted() {
                break;
            }
            let ghost b = *self;
            let tick_r = self.tick();
            match tick_r {
                Ok(_) => {
                    proof {
                        match tick_r {
                            Ok(u) => {
                                assert(u == ());
                            },
                            Err(_) => {
                                assert(false);
                            },
                        }
                        lemma_ticks_to_snoc(a, b, *self, (t - 1) as nat);
                    }
                },
                Err(e) => {
                    proof {
                        assert(ticks_to(a, b, (t - 1) as nat));
                        assert(tick_rel(b, *self, Err(e)));
                    }
                    return Err(e);
                },
            }
            t = t + 1;
        }
        let ghost b = *self;
        let r = self.tick();
        proof {
            assert(ticks_to(a, b, (t - 1) as nat));
            assert(tick_rel(b, *self, r));
        }
        r
    }

    /// An exclusive borrow of the block under `id`; the caller's writes to it
    /// become the new block under that id.
    pub fn mut_block(&mut self, id: u16) -> (r: Result<&mut Block, CanvasError>)
        requires
            old(self).wf(),
        ensures
            id < old(self).blocks@.len() ==> (r matches Ok(b) && *b == old(self).blocks@[id as int]
                && final(self).blocks@ == old(self).blocks@.update(id as int, *final(b))
                && *final(self) == (Canvas { blocks: final(self).blocks, ..*old(self) })),
            id >= old(self).blocks@.len() ==> ({
                &&& *final(self) == *old(self)
                &&& r matches Err(e) && e == (CanvasError::BlockNotFound { id })
            }),
    {
        if (id as usize) < self.blocks.len() {
            Ok(&mut self.blocks[id as usize])
        } else {
            Err(CanvasError::BlockNotFound { id })
        }
    }
}

/// Law: no two wires share a source port, and no two wires share a target
/// port.
pub proof fn lemma_wire_endpoints_unique(c: Canvas, i: int, j: int)
    requires
        c.wf(),
        0 <= i < c.wires@.len(),
        0 <= j < c.wires@.len(),
        i != j,
    ensures
        c.wires@[i].source != c.wires@[j].source,
        c.wires@[i].target != c.wires@[j].target,
{
}

/// Law: every machine block names a machine that the router owns. The
/// matching half — the block of `add_machine` shares its id with its machine
/// — is the ensures of `Canvas::add_machine`.
pub proof fn lemma_machine_block_resolves(c: Canvas, i: int)
    requires
        c.wf(),
        0 <= i < c.blocks@.len(),
        c.blocks@[i].data is MachineBlock,
    ensures
        c.router.contains_id(c.blocks@[i].data->machine_id),
{
}

/// Law: every block's id is the position at which it was inserted.
pub proof fn lemma_block_id_is_position(c: Canvas, i: int)
    requires
        c.wf(),
        0 <= i < c.blocks@.len(),
    ensures
        c.blocks@[i].id == i as u16,
{
}

/// Law: wiring the same ports twice hands back the id of the wire the first
/// call created, and only the first call adds a wire — the count grows by
/// exactly one over the two calls.
pub proof fn lemma_connect_idempotent(
    c1: Canvas,
    c2: Canvas,
    c3: Canvas,
    s: Port,
    t: Port,
    id: u16,
    r2: Result<u16, CanvasError>,
)
    requires
        c1.wf(),
        s != t,
        wire_touching(c1.wires@, s, t) is None,
        s.block < c1.blocks@.len(),
        t.block < c1.blocks@.len(),
        connect_rel(c1, c2, s, t, Ok(id)),
        connect_rel(c2, c3, s, t, r2),
    ensures
        r2 == Ok::<u16, CanvasError>(id),
        c3 == c2,
        c2.wires@.len() == c1.wires@.len() + 1,
{
    let w = Wire { id: c1.wires@.len() as u16, source: s, target: t };
    lemma_touching_none_inv(c1.wires@, s, t);
    assert forall|k: int| 0 <= k < c1.wires@.len()
        implies (#[trigger] c2.wires@[k]).source != s && c2.wires@[k].target != t
    by {
        assert(c2.wires@[k] == c1.wires@[k]);
    }
    assert(c2.wires@[c1.wires@.len() as int] == w);
    lemma_touching_at(c2.wires@, s, t, c1.wires@.len() as int);
}

} // verus!
