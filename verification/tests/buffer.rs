use girg_generator::buffer::{
    FixedSizeCPUBuffer, GetFixedSizeBufferMut, GetFixedSizeBufferRef,
};

#[test]
fn lib_it_works() {
    let mut owner: FixedSizeCPUBuffer<u64> = FixedSizeCPUBuffer::from(vec![1, 2, 3]);
    let borrower = owner.get_ref();
    assert_eq!(borrower.get(2), 3);
    owner.set(2, 4);
    let borrower = owner.get_ref();
    assert_eq!(borrower.get(2), 4);
    assert_eq!(owner.buffer[2], 4);
}

#[test]
fn mut_handle_carries_the_values() {
    let mut owner: FixedSizeCPUBuffer<u64> = FixedSizeCPUBuffer::from(vec![10, 20]);
    let mut handle = owner.get_mut();
    assert_eq!(handle.len(), 2);
    handle.set(0, 11);
    assert_eq!(handle.get(0), 11);
    // the owner keeps its own values; handles carry a copy
    assert_eq!(owner.get(0), 10);
}

#[test]
fn clone_copies_the_backing_store() {
    let owner: FixedSizeCPUBuffer<u64> = FixedSizeCPUBuffer::from(vec![5, 6, 7]);
    let copied = owner.clone();
    assert_eq!(copied.buffer, vec![5, 6, 7]);
}
