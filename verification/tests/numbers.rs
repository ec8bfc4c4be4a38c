use pallet_transaction_storage::number::{BlockNumber, Identity};
use pallet_transaction_storage::storage::StorageMap;
use pallet_transaction_storage::AuthorizationScope;

#[test]
fn numbers_saturate() {
    assert_eq!(u32::MAX.saturating_sum(1), u32::MAX);
    assert_eq!(2u32.saturating_sum(3), 5);
    assert_eq!(2u64.saturating_difference(3), 0);
    assert_eq!(3u64.saturating_difference(2), 1);
    assert_eq!(u32::MAX.checked_sum(1), None);
    assert_eq!(2u64.checked_sum(3), Some(5));
    assert!(3u32.is_after(2) && !2u32.is_after(2));
    assert_eq!((u32::zero(), u64::one()), (0, 1));
}

#[test]
fn scopes_are_told_apart() {
    let account: AuthorizationScope<u64> = AuthorizationScope::Account(1);
    let preimage: AuthorizationScope<u64> = AuthorizationScope::Preimage([1; 32]);
    let mut hash = [1; 32];
    hash[31] = 2;
    assert!(account.same(&account.duplicate()) && preimage.same(&preimage.duplicate()));
    assert!(!account.same(&preimage) && !preimage.same(&account));
    assert!(!preimage.same(&AuthorizationScope::Preimage(hash)));
    assert!(!account.same(&AuthorizationScope::Account(2)));
}

#[test]
fn maps_keep_the_last_value() {
    let mut map: StorageMap<u64, u8> = StorageMap::new();
    map.insert(1, 10);
    map.insert(2, 20);
    map.insert(3, 30);
    map.insert(2, 21);
    assert_eq!((map.get(&1), map.get(&2), map.get(&3)), (Some(&10), Some(&21), Some(&30)));
    map.remove(&1);
    map.remove(&4);
    assert_eq!((map.get(&1), map.get(&2), map.get(&3)), (None, Some(&21), Some(&30)));
}
