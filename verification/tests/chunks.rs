use pallet_transaction_storage::chunks::num_chunks;

#[test]
fn counts_chunks() {
    assert_eq!(num_chunks(0), 0);
    assert_eq!(num_chunks(1), 1);
    assert_eq!(num_chunks(256), 1);
    assert_eq!(num_chunks(257), 2);
    assert_eq!(num_chunks(u32::MAX), 16_777_216);
}
