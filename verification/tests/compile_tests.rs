use machine::compile::compile;
use machine::op::Op;
use machine::parser::Parser;

#[test]
fn test_compile() {
    let m = compile(vec![Op::Push(5), Op::Push(10)]);
    assert_eq!(m[0..4], [0x01, 5, 0x01, 10]);
}

#[test]
fn test_compile_terminates_with_eof() {
    let m = compile(vec![Op::Push(5), Op::Pop, Op::Halt]);
    assert_eq!(m, vec![0x01, 5, 0x02, 0x0F, 0x00]);
}

#[test]
fn test_compile_empty_is_just_eof() {
    assert_eq!(compile(vec![]), vec![0x00]);
}

#[test]
fn test_immediates_sit_right_after_their_opcode() {
    let m = compile(vec![Op::Noop, Op::Jump(9), Op::Call(2), Op::Return]);
    assert_eq!(m, vec![0x10, 0x08, 9, 0x0B, 2, 0x0C, 0x00]);
}

#[test]
fn test_parse_then_compile_is_byte_stable() {
    let src = "start:\n    push 1\n    push 2\n    jump start\n";
    let a = compile(Parser::parse(src).unwrap().ops);
    let b = compile(Parser::parse(src).unwrap().ops);
    assert_eq!(a, b);
    assert_eq!(a, vec![0x01, 1, 0x01, 2, 0x08, 0, 0x00]);
}
