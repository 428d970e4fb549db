use machine::block::BlockData;
use machine::canvas::Canvas;
use machine::canvas_error::CanvasError;
use machine::message::{Action, Message, Port};
use machine::op::Op;

fn port(block: u16, port: u16) -> Port {
    Port { block, port }
}

#[test]
fn test_two_machine_ping() {
    let mut c = Canvas::new();
    let m0 = c.add_machine().unwrap();
    let m1 = c.add_machine().unwrap();
    c.connect(port(m0, 0), port(m1, 0)).unwrap();

    c.router.machines[0]
        .load_code(vec![Op::Push(0xBEEF), Op::Push(1), Op::Push(0), Op::Send, Op::Halt])
        .unwrap();

    c.run().unwrap();

    let receiver = c.router.get(m1).unwrap();
    assert_eq!(
        receiver.inbox,
        vec![Message { port: port(m0, 0), action: Action::Data { body: vec![0xBEEF] } }]
    );
}

#[test]
fn test_pixel_sink_keeps_last_payload() {
    let mut c = Canvas::new();
    let m0 = c.add_machine().unwrap();
    let p = c.add_block(BlockData::PixelBlock { pixels: vec![] }).unwrap();
    c.connect(port(m0, 0), port(p, 0)).unwrap();

    c.router.machines[0]
        .load_code(vec![
            Op::Push(1),
            Op::Push(2),
            Op::Push(3),
            Op::Push(3),
            Op::Push(0),
            Op::Send,
            Op::Push(9),
            Op::Push(1),
            Op::Push(0),
            Op::Send,
            Op::Halt,
        ])
        .unwrap();

    c.run().unwrap();

    let sink = c.get_block(p).unwrap();
    assert_eq!(sink.data, BlockData::PixelBlock { pixels: vec![9] });
}

#[test]
fn test_disconnected_port_fails_the_run() {
    let mut c = Canvas::new();
    let m0 = c.add_machine().unwrap();
    let _m1 = c.add_machine().unwrap();

    c.router.machines[0]
        .load_code(vec![Op::Push(0xBEEF), Op::Push(1), Op::Push(0), Op::Send, Op::Halt])
        .unwrap();

    assert_eq!(c.run(), Err(CanvasError::DisconnectedPort { port: port(m0, 0) }));
}

#[test]
fn test_self_wire_is_rejected() {
    let mut c = Canvas::new();
    let m0 = c.add_machine().unwrap();
    assert_eq!(
        c.connect(port(m0, 0), port(m0, 0)),
        Err(CanvasError::CannotWireToItself { port: port(m0, 0) })
    );
}

#[test]
fn test_connect_is_idempotent() {
    let mut c = Canvas::new();
    let a = c.add_machine().unwrap();
    let b = c.add_machine().unwrap();
    let first = c.connect(port(a, 0), port(b, 0)).unwrap();
    let second = c.connect(port(a, 0), port(b, 0)).unwrap();
    assert_eq!(first, second);
    assert_eq!(c.wires.len(), 1);
}

#[test]
fn test_connect_rejects_missing_blocks() {
    let mut c = Canvas::new();
    let m0 = c.add_machine().unwrap();
    assert_eq!(
        c.connect(port(m0, 0), port(7, 0)),
        Err(CanvasError::BlockNotFound { id: 7 })
    );
    assert_eq!(
        c.connect(port(7, 0), port(m0, 0)),
        Err(CanvasError::BlockNotFound { id: 7 })
    );
}

#[test]
fn test_machine_block_must_name_an_owned_machine() {
    let mut c = Canvas::new();
    assert_eq!(
        c.add_block(BlockData::MachineBlock { machine_id: 3 }),
        Err(CanvasError::MachineNotFound { id: 3 })
    );
}

#[test]
fn test_block_ids_are_positions() {
    let mut c = Canvas::new();
    let a = c.add_machine().unwrap();
    let b = c.add_block(BlockData::PixelBlock { pixels: vec![] }).unwrap();
    let d = c.add_machine().unwrap();
    assert_eq!((a, b, d), (0, 1, 2));
    for (i, block) in c.blocks.iter().enumerate() {
        assert_eq!(block.id as usize, i);
    }
}

#[test]
fn test_machine_block_shares_its_machine_id() {
    let mut c = Canvas::new();
    let a = c.add_machine().unwrap();
    let block = c.get_block(a).unwrap();
    assert_eq!(block.data, BlockData::MachineBlock { machine_id: a });
    assert!(c.router.get(a).is_some());
}

#[test]
fn test_tick_leaves_no_block_outbox_pending() {
    let mut c = Canvas::new();
    let m0 = c.add_machine().unwrap();
    let p = c.add_block(BlockData::PixelBlock { pixels: vec![] }).unwrap();
    c.connect(port(m0, 0), port(p, 0)).unwrap();

    c.blocks[0].outbox.push(Message {
        port: port(m0, 0),
        action: Action::Data { body: vec![4, 2] },
    });
    c.tick().unwrap();

    for block in &c.blocks {
        assert!(block.outbox.is_empty());
    }
    let sink = c.get_block(p).unwrap();
    assert_eq!(sink.data, BlockData::PixelBlock { pixels: vec![4, 2] });
}

#[test]
fn test_router_is_halted_iff_every_machine_is_done() {
    let mut c = Canvas::new();
    assert!(c.router.is_halted());

    let _m0 = c.add_machine().unwrap();
    assert!(!c.router.is_halted());

    c.router.machines[0].load_code(vec![Op::Halt]).unwrap();
    c.run().unwrap();
    assert!(c.router.is_halted());
}

#[test]
fn test_wires_share_no_source_and_no_target() {
    let mut c = Canvas::new();
    let a = c.add_machine().unwrap();
    let b = c.add_machine().unwrap();
    let d = c.add_machine().unwrap();
    c.connect(port(a, 0), port(b, 0)).unwrap();
    c.connect(port(b, 0), port(d, 0)).unwrap();
    for (i, w1) in c.wires.iter().enumerate() {
        for (j, w2) in c.wires.iter().enumerate() {
            if i != j {
                assert_ne!(w1.source, w2.source);
                assert_ne!(w1.target, w2.target);
            }
        }
    }
}

#[test]
fn test_run_without_halting_hits_the_tick_ceiling_quietly() {
    let mut c = Canvas::new();
    let _m0 = c.add_machine().unwrap();
    c.router.machines[0]
        .load_code(vec![Op::Jump(0)])
        .unwrap();
    assert_eq!(c.run(), Ok(()));
    assert!(!c.router.is_halted());
}
