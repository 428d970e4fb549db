use machine::controller::{Controller, RunError};
use machine::machine::{Machine, StepResult};
use machine::machine_error::MachineError;
use machine::memory::{CODE_START, STACK_FLOOR};
use machine::message::Event;
use machine::op::Op;
use machine::parser::Parser;
use machine::symbols::Symbols;

#[test]
fn test_print_hello_world() {
    let mut m = Machine::new();

    let mut symbols = Symbols::new();
    symbols.offsets.push(("h".to_string(), 0));
    symbols.strings.push(("h".to_string(), "hello, ".to_string()));
    symbols.offsets.push(("w".to_string(), 8));
    symbols.strings.push(("w".to_string(), "world!".to_string()));
    m.load_symbols(&symbols).unwrap();

    m.load_code(vec![Op::LoadString(0), Op::Print, Op::LoadString(8), Op::Print]).unwrap();

    m.run().unwrap();
    assert_eq!(m.read_stack(1), [0], "stack should be empty");
    assert_eq!(
        m.events,
        vec![
            Event::Print { text: "hello, ".to_string() },
            Event::Print { text: "world!".to_string() },
            Event::Halt,
        ]
    );
}

#[test]
fn test_hello_world_through_controller() {
    let src = ".string h \"hello, \"\n.string w \"world!\"\nload_string h\nprint\nload_string w\nprint\nhalt\n";
    let mut c = Controller::create();
    let id = c.add();
    let out = c.run(id, src).unwrap();
    assert_eq!(
        out.events,
        vec![
            Event::Print { text: "hello, ".to_string() },
            Event::Print { text: "world!".to_string() },
            Event::Halt,
        ]
    );
    assert_eq!(out.stack, vec![0; 10]);
}

#[test]
fn test_run_and_manual_stepping_agree() {
    let src = ".string h \"hi\"\npush 7\npush 8\nload_string h\nprint\nhalt\n";

    let mut c = Controller::create();
    let id = c.add();
    let out = c.run(id, src).unwrap();

    let p = Parser::parse(src).unwrap();
    let mut m = Machine::new();
    m.load_symbols(&p.symbols).unwrap();
    m.load_code(p.ops).unwrap();
    m.ready();
    loop {
        match m.step() {
            Ok(StepResult::Halted) => break,
            Ok(StepResult::Continued) => {},
            Err(e) => panic!("unexpected machine failure: {:?}", e),
        }
    }
    assert_eq!(m.read_stack(10), out.stack);
    assert_eq!(m.events, out.events);
}

#[test]
fn test_stack_is_read_top_first() {
    let src = "push 1\npush 2\nhalt\n";
    let mut c = Controller::create();
    let id = c.add();
    let out = c.run(id, src).unwrap();
    assert_eq!(out.stack[0..2], [2, 1]);
    assert_eq!(c.read_stack(id, 2), vec![2, 1]);
}

#[test]
fn test_arithmetic_of_stack_ops() {
    let src = "push 1\npush 2\nswap\npop\nhalt\n";
    let mut c = Controller::create();
    let id = c.add();
    let out = c.run(id, src).unwrap();
    assert_eq!(out.stack[0..2], [2, 0]);
}

#[test]
fn test_store_and_load_round_trip() {
    let src = "push 123\nstore 5\nload 5\nhalt\n";
    let mut c = Controller::create();
    let id = c.add();
    let out = c.run(id, src).unwrap();
    assert_eq!(out.stack[0], 123);
}

#[test]
fn test_jump_zero_takes_the_branch() {
    let src = "push 0\njump_zero done\npush 1\ndone:\nhalt\n";
    let mut c = Controller::create();
    let id = c.add();
    let out = c.run(id, src).unwrap();
    assert_eq!(out.stack, vec![0; 10]);
}

#[test]
fn test_jump_not_zero_takes_the_branch() {
    let src = "push 5\njump_not_zero done\npush 1\ndone:\nhalt\n";
    let mut c = Controller::create();
    let id = c.add();
    let out = c.run(id, src).unwrap();
    assert_eq!(out.stack, vec![0; 10]);
}

#[test]
fn test_pop_on_empty_stack_underflows() {
    let src = "pop\nhalt\n";
    let mut c = Controller::create();
    let id = c.add();
    assert_eq!(
        c.run(id, src),
        Err(RunError::Machine { cause: MachineError::StackUnderflow })
    );
}

#[test]
fn test_load_of_last_address_is_out_of_range() {
    let src = "load 0xFFFF\nhalt\n";
    let mut c = Controller::create();
    let id = c.add();
    assert_eq!(
        c.run(id, src),
        Err(RunError::Machine { cause: MachineError::AddressOutOfRange })
    );
}

#[test]
fn test_full_stack_overflows() {
    let mut m = Machine::new();
    m.load_code(vec![Op::Push(1)]).unwrap();
    m.ready();
    m.sp = STACK_FLOOR - 1;
    assert_eq!(m.step(), Err(MachineError::StackOverflow));
}

#[test]
fn test_unknown_opcode_faults() {
    let mut m = Machine::new();
    m.mem.set(CODE_START, 0x99).unwrap();
    m.ready();
    assert_eq!(m.step(), Err(MachineError::InvalidOpcode));
}

#[test]
fn test_looping_forever_is_reported_as_hanging() {
    let src = "spin:\njump spin\n";
    let mut c = Controller::create();
    let id = c.add();
    assert_eq!(
        c.run(id, src),
        Err(RunError::Machine { cause: MachineError::HangingProgram })
    );
}

#[test]
fn test_parse_error_surfaces_through_controller() {
    let mut c = Controller::create();
    let id = c.add();
    assert_eq!(
        c.run(id, "jump nowhere\n"),
        Err(RunError::Parse { cause: machine::parse_error::ParseError::UndefinedSymbols })
    );
}

#[test]
fn test_halted_machine_does_not_step_further() {
    let mut m = Machine::new();
    m.load_code(vec![Op::Halt, Op::Push(1)]).unwrap();
    m.ready();
    assert_eq!(m.step(), Ok(StepResult::Halted));
    let pc = m.pc;
    assert_eq!(m.step(), Ok(StepResult::Halted));
    assert_eq!(m.pc, pc);
    assert_eq!(m.events, vec![Event::Halt]);
}
