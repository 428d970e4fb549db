use machine::machine_error::MachineError;
use machine::memory::{Memory, MEMORY_SIZE};

#[test]
fn test_memset() {
    let mut m = Memory::new();

    m.set(0, 1).unwrap();
    assert_eq!(m.get(0).unwrap(), 1);
    assert_eq!(m.get(1).unwrap(), 0);
}

#[test]
fn test_memory_rejects_out_of_range() {
    let mut m = Memory::new();
    assert_eq!(m.set(MEMORY_SIZE, 1), Err(MachineError::AddressOutOfRange));
    assert_eq!(m.get(MEMORY_SIZE), Err(MachineError::AddressOutOfRange));
    assert_eq!(m.get(MEMORY_SIZE - 1), Ok(0));
}
