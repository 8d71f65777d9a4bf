use modruntime::memory::{GuestMemory, MemoryError};

fn sample() -> GuestMemory {
    GuestMemory::new((0u8..32).collect())
}

#[test]
fn read_then_write_back_is_no_op() {
    let mut m = sample();
    let before = m.bytes().unwrap().clone();
    let got = m.read_bytes(4, 10).unwrap();
    assert_eq!(got, (4u8..14).collect::<Vec<u8>>());
    m.write_bytes(4, &got).unwrap();
    assert_eq!(m.bytes().unwrap(), &before);
}

#[test]
fn write_changes_only_the_range() {
    let mut m = sample();
    m.write_bytes(30, &[9, 9]).unwrap();
    let b = m.bytes().unwrap();
    assert_eq!(b[29], 29);
    assert_eq!(&b[30..], &[9, 9]);
}

#[test]
fn zero_length_read_succeeds() {
    let m = sample();
    assert_eq!(m.read_bytes(32, 0), Ok(vec![]));
    assert_eq!(m.read_bytes(100, 0), Ok(vec![]));
    assert_eq!(GuestMemory::new(vec![]).read_bytes(1, 0), Ok(vec![]));
}

#[test]
fn zero_length_write_succeeds_and_changes_nothing() {
    let mut m = sample();
    assert_eq!(m.write_bytes(1000, &[]), Ok(()));
    assert_eq!(m.bytes().unwrap(), &(0u8..32).collect::<Vec<u8>>());
}

#[test]
fn read_past_end_is_out_of_bounds() {
    let m = sample();
    assert_eq!(m.read_bytes(30, 3), Err(MemoryError::OutOfBounds));
    assert_eq!(m.read_bytes(usize::MAX, 2), Err(MemoryError::OutOfBounds));
}

#[test]
fn failed_write_changes_nothing() {
    let mut m = sample();
    assert_eq!(m.write_bytes(31, &[1, 2]), Err(MemoryError::OutOfBounds));
    assert_eq!(m.bytes().unwrap(), &(0u8..32).collect::<Vec<u8>>());
}

#[test]
fn missing_memory_export() {
    let mut m = GuestMemory::absent();
    assert!(!m.is_present());
    assert_eq!(m.size(), 0);
    assert_eq!(m.read_bytes(0, 0), Err(MemoryError::NoMemoryExport));
    assert_eq!(m.write_bytes(0, &[]), Err(MemoryError::NoMemoryExport));
}
