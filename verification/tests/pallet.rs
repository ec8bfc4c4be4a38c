use frame_support::inherent::InherentData;
use pallet_transaction_storage::chunks::{chunks_so_far, find_transaction, split_chunks};
use pallet_transaction_storage::types::{
    ArithmeticError, Authorization, BadOrigin, DbWeight, IndexOperation, IntegrityError, Weight,
};
use pallet_transaction_storage::{
    AuthorizationExtent, AuthorizationScope, Call, Config, DispatchError, Error, Event, Origin,
    Pallet, TransactionInfo, TransactionStorageProof, DEFAULT_MAX_BLOCK_TRANSACTIONS,
    DEFAULT_MAX_TRANSACTION_SIZE,
};
use sp_transaction_storage_proof::registration::build_proof;
use sp_transaction_storage_proof::INHERENT_IDENTIFIER;

type Storage = Pallet<u64, u64>;

fn config() -> Config<u64> {
    Config {
        max_block_transactions: DEFAULT_MAX_BLOCK_TRANSACTIONS,
        max_transaction_size: DEFAULT_MAX_TRANSACTION_SIZE,
        authorization_period: 10,
        storage_period: 10,
        db_weight: DbWeight { read: 25, write: 100 },
    }
}

fn start(block: u64) -> Storage {
    let mut pallet = Storage::new(config());
    enter(&mut pallet, block, 0);
    pallet
}

/// Starts a block whose parent hash starts with `random`.
fn enter(pallet: &mut Storage, block: u64, random: u64) {
    pallet.system.block_number = block;
    let mut parent_hash = random.to_be_bytes().to_vec();
    parent_hash.resize(32, 7);
    pallet.system.parent_hash = parent_hash;
    pallet.system.extrinsic_index = Some(1);
    pallet.on_initialize(block);
}

fn refused(error: Error) -> Result<(), DispatchError> {
    Err(DispatchError::Module(error))
}

fn payload(size: usize) -> Vec<u8> {
    (0..size).map(|i| (i % 251) as u8 ^ (i / 256) as u8).collect()
}

fn blake2(data: &[u8]) -> [u8; 32] {
    sp_io::hashing::blake2_256(data)
}

fn proof_for(pallet: &Storage, bodies: Vec<Vec<u8>>) -> TransactionStorageProof {
    let built = build_proof(&pallet.system.parent_hash, bodies).unwrap().unwrap();
    TransactionStorageProof { chunk: built.chunk, proof: built.proof }
}

/// Everything in the pallet that can be compared, but for the maps.
fn same_but_for_maps(a: &Storage, b: &Storage) -> bool {
    a.block_transactions == b.block_transactions
        && a.proof_checked == b.proof_checked
        && a.index_operations == b.index_operations
        && a.events == b.events
}

#[test]
fn splits_data_into_chunks() {
    assert!(split_chunks(&vec![]).is_empty());
    assert_eq!(split_chunks(&payload(256)), vec![payload(256)]);
    let data = payload(700);
    let expected: Vec<Vec<u8>> = data.chunks(256).map(|c| c.to_vec()).collect();
    assert_eq!(split_chunks(&data), expected);
    assert_eq!(expected.len(), 3);
    assert_eq!(expected[2].len(), 188);
}

fn info(block_chunks: u32) -> TransactionInfo {
    TransactionInfo { chunk_root: [0; 32], content_hash: [0; 32], size: 256, block_chunks }
}

#[test]
fn finds_transactions_by_chunk() {
    let infos = vec![info(2), info(3), info(7)];
    assert_eq!(chunks_so_far(&infos), 7);
    assert_eq!(chunks_so_far(&vec![]), 0);
    for (chunk, place) in [(0, 0), (1, 0), (2, 1), (3, 2), (4, 2), (6, 2), (7, 3), (8, 3)] {
        assert_eq!(find_transaction(&infos, chunk), place);
    }
}

#[test]
fn stores_data() {
    let mut pallet = start(1);
    let data = payload(2000);
    assert_eq!(pallet.authorize_account(Ok(()), 5, 2, 4000), Ok(()));
    assert_eq!(pallet.store(Origin::Signed(5), data.clone()), Ok(()));
    let root: [u8; 32] = sp_io::trie::blake2_256_ordered_root(
        data.chunks(256).map(|c| c.to_vec()).collect(),
        sp_runtime::StateVersion::V1,
    )
    .into();
    let stored = TransactionInfo {
        chunk_root: root,
        content_hash: blake2(&data),
        size: 2000,
        block_chunks: 8,
    };
    assert_eq!(pallet.block_transactions, vec![stored]);
    assert_eq!(
        pallet.index_operations,
        vec![IndexOperation::Insert { extrinsic: 1, size: 2000, hash: blake2(&data) }],
    );
    assert_eq!(
        pallet.events,
        vec![
            Event::AccountUploadAuthorized { who: 5, transactions: 2, bytes: 4000 },
            Event::Stored { index: 0 },
        ],
    );
    assert_eq!(
        pallet.unused_account_authorization_extent(5),
        AuthorizationExtent { transactions: 1, bytes: 2000 },
    );
    assert_eq!(pallet.store(Origin::Signed(5), payload(300)), Ok(()));
    assert_eq!(pallet.block_transactions[1].block_chunks, 10);
    assert_eq!(pallet.events.last(), Some(&Event::Stored { index: 1 }));
    pallet.on_finalize(1);
    assert!(pallet.block_transactions.is_empty());
    let kept = pallet.transaction_roots(1).unwrap();
    assert_eq!(kept.len(), 2);
    assert_eq!(kept[0], stored);
    assert_eq!(pallet.chunk_count.get(&1), Some(&10));
    assert!(pallet.transaction_roots(2).is_none());
}

#[test]
fn an_empty_block_keeps_nothing() {
    let mut pallet = start(1);
    pallet.on_finalize(1);
    assert!(pallet.transaction_roots(1).is_none());
    assert_eq!(pallet.chunk_count.get(&1), None);
}

#[test]
fn refuses_data_of_the_wrong_size() {
    let mut pallet = start(1);
    pallet.config.max_transaction_size = 100;
    pallet.authorize_account(Ok(()), 5, 9, 9000).unwrap();
    assert_eq!(pallet.store(Origin::Signed(5), vec![]), refused(Error::EmptyTransaction));
    assert_eq!(pallet.store(Origin::Root, vec![]), refused(Error::EmptyTransaction));
    assert_eq!(
        pallet.store(Origin::Signed(5), payload(101)),
        refused(Error::TransactionTooLarge),
    );
    assert_eq!(pallet.store(Origin::Signed(5), payload(100)), Ok(()));
    assert_eq!(pallet.store(Origin::Signed(5), payload(1)), Ok(()));
}

#[test]
fn refuses_data_without_authorization() {
    let mut pallet = start(1);
    assert_eq!(pallet.store(Origin::Signed(5), payload(10)), refused(Error::NotAuthorized));
    assert_eq!(pallet.store(Origin::Unsigned, payload(10)), refused(Error::NotAuthorized));
    assert_eq!(pallet.store(Origin::Root, payload(10)), Err(DispatchError::BadOrigin));
    assert_eq!(pallet.store(Origin::Other, payload(10)), Err(DispatchError::BadOrigin));
    pallet.authorize_account(Ok(()), 5, 1, 10).unwrap();
    assert_eq!(pallet.store(Origin::Signed(6), payload(10)), refused(Error::NotAuthorized));
    assert_eq!(pallet.store(Origin::Signed(5), payload(11)), refused(Error::NotAuthorized));
    assert_eq!(pallet.store(Origin::Signed(5), payload(10)), Ok(()));
    assert_eq!(pallet.store(Origin::Signed(5), payload(10)), refused(Error::NotAuthorized));
}

#[test]
fn a_refused_call_changes_nothing() {
    let mut pallet = start(1);
    pallet.config.max_block_transactions = 1;
    pallet.authorize_account(Ok(()), 5, 9, 9000).unwrap();
    pallet.system.extrinsic_index = None;
    assert_eq!(pallet.store(Origin::Signed(5), payload(10)), refused(Error::BadContext));
    let untouched = start(1);
    assert_eq!(pallet.index_operations, untouched.index_operations);
    assert_eq!(pallet.events.len(), 1);
    pallet.system.extrinsic_index = Some(3);
    assert_eq!(pallet.store(Origin::Signed(5), payload(10)), Ok(()));
    assert_eq!(pallet.store(Origin::Signed(5), payload(20)), refused(Error::TooManyTransactions));
    assert_eq!(pallet.block_transactions.len(), 1);
    assert_eq!(pallet.events.len(), 2);
    // The node has been asked before the block turned out to be full.
    assert_eq!(
        pallet.index_operations.last(),
        Some(&IndexOperation::Insert { extrinsic: 3, size: 20, hash: blake2(&payload(20)) }),
    );
    assert_eq!(
        pallet.unused_account_authorization_extent(5),
        AuthorizationExtent { transactions: 8, bytes: 8990 },
    );
}

#[test]
fn uses_an_authorization_exactly() {
    let mut pallet = start(1);
    pallet.authorize(AuthorizationScope::Account(5), 2, 50).unwrap();
    assert_eq!(pallet.use_authorization(Origin::Signed(5), [0; 32], 20), Ok(()));
    assert_eq!(
        pallet.authorizations.get(&AuthorizationScope::Account(5)),
        Some(&Authorization {
            extent: AuthorizationExtent { transactions: 1, bytes: 30 },
            expiration: 11,
        }),
    );
    assert_eq!(
        pallet.use_authorization(Origin::Signed(5), [0; 32], 31),
        refused(Error::NotAuthorized),
    );
    assert_eq!(pallet.use_authorization(Origin::Root, [0; 32], 1), Err(DispatchError::BadOrigin));
    assert_eq!(pallet.use_authorization(Origin::Signed(5), [0; 32], 30), Ok(()));
    assert_eq!(
        pallet.use_authorization(Origin::Signed(5), [0; 32], 0),
        refused(Error::NotAuthorized),
    );
}

#[test]
fn authorizations_are_additive() {
    let mut pallet = start(1);
    pallet.authorize_account(Ok(()), 5, 2, 100).unwrap();
    pallet.system.block_number = 4;
    pallet.authorize_account(Ok(()), 5, 3, 50).unwrap();
    assert_eq!(
        pallet.authorizations.get(&AuthorizationScope::Account(5)),
        Some(&Authorization {
            extent: AuthorizationExtent { transactions: 5, bytes: 150 },
            expiration: 14,
        }),
    );
    pallet.authorize_account(Ok(()), 5, u32::MAX, u64::MAX).unwrap();
    assert_eq!(
        pallet.unused_account_authorization_extent(5),
        AuthorizationExtent { transactions: u32::MAX, bytes: u64::MAX },
    );
    assert_eq!(pallet.unused_account_authorization_extent(6), AuthorizationExtent::default());
}

#[test]
fn authorizations_expire() {
    let mut pallet = start(1);
    pallet.authorize_account(Ok(()), 5, 2, 100).unwrap();
    pallet.system.block_number = 11;
    assert_eq!(
        pallet.unused_account_authorization_extent(5),
        AuthorizationExtent { transactions: 2, bytes: 100 },
    );
    assert_eq!(pallet.store(Origin::Signed(5), payload(40)), Ok(()));
    pallet.system.block_number = 12;
    assert_eq!(
        pallet.unused_account_authorization_extent(5),
        AuthorizationExtent { transactions: 0, bytes: 0 },
    );
    assert_eq!(pallet.store(Origin::Signed(5), payload(40)), refused(Error::NotAuthorized));
}

#[test]
fn the_authorizer_decides() {
    let mut pallet = start(1);
    assert_eq!(
        pallet.authorize_account(Err(BadOrigin), 5, 2, 100),
        Err(DispatchError::BadOrigin),
    );
    assert_eq!(
        pallet.authorize_preimage(Err(BadOrigin), [1; 32], u64::MAX),
        Err(DispatchError::BadOrigin),
    );
    assert!(same_but_for_maps(&pallet, &start(1)));
    assert_eq!(pallet.unused_account_authorization_extent(5), AuthorizationExtent::default());
}

#[test]
fn expirations_must_fit() {
    let mut pallet = start(u64::MAX - 10);
    assert_eq!(pallet.authorize_account(Ok(()), 5, 2, 100), Ok(()));
    pallet.system.block_number = u64::MAX - 9;
    let overflow = Err(DispatchError::Arithmetic(ArithmeticError::Overflow));
    assert_eq!(pallet.authorize_account(Ok(()), 5, 2, 100), overflow);
    assert_eq!(pallet.authorize_preimage(Ok(()), [1; 32], 1), overflow);
    assert_eq!(
        pallet.unused_account_authorization_extent(5),
        AuthorizationExtent { transactions: 2, bytes: 100 },
    );
}

#[test]
fn a_preimage_is_uploaded_once_by_anyone() {
    let mut pallet = start(1);
    let data = payload(2000);
    let hash = blake2(&data);
    assert_eq!(pallet.authorize_preimage(Ok(()), hash, 2000), Ok(()));
    assert_eq!(
        pallet.events,
        vec![Event::PreimageUploadAuthorized { hash, max_size: 2000 }],
    );
    assert_eq!(
        pallet.unused_preimage_authorization_extent(hash),
        AuthorizationExtent { transactions: 1, bytes: 2000 },
    );
    assert_eq!(
        pallet.unused_preimage_authorization_extent([0; 32]),
        AuthorizationExtent::default(),
    );
    assert_eq!(pallet.store(Origin::Unsigned, payload(1999)), refused(Error::NotAuthorized));
    assert_eq!(pallet.store(Origin::Unsigned, data.clone()), Ok(()));
    assert_eq!(pallet.store(Origin::Unsigned, data), refused(Error::NotAuthorized));
}

#[test]
fn a_preimage_must_fit_in_a_transaction() {
    let mut pallet = start(1);
    let limit = DEFAULT_MAX_TRANSACTION_SIZE as u64;
    assert_eq!(limit, 8_388_608);
    assert_eq!(pallet.authorize_preimage(Ok(()), [1; 32], limit + 1), refused(Error::Impossible));
    assert_eq!(pallet.authorize_preimage(Ok(()), [1; 32], limit), Ok(()));
}

#[test]
fn renews_data() {
    let mut pallet = start(1);
    let data = payload(2000);
    pallet.authorize_account(Ok(()), 5, 3, 4100).unwrap();
    pallet.store(Origin::Signed(5), payload(100)).unwrap();
    pallet.store(Origin::Signed(5), data.clone()).unwrap();
    pallet.on_finalize(1);
    enter(&mut pallet, 6, 0);
    assert_eq!(pallet.renew(Origin::Signed(5), 1, 2), refused(Error::RenewedNotFound));
    assert_eq!(pallet.renew(Origin::Signed(5), 2, 0), refused(Error::RenewedNotFound));
    assert_eq!(pallet.renew(Origin::Signed(6), 1, 1), refused(Error::NotAuthorized));
    assert_eq!(pallet.renew(Origin::Root, 1, 1), Err(DispatchError::BadOrigin));
    assert_eq!(pallet.renew(Origin::Signed(5), 1, 1), Ok(()));
    assert_eq!(pallet.events.last(), Some(&Event::Renewed { index: 0 }));
    assert_eq!(
        pallet.index_operations.last(),
        Some(&IndexOperation::Renew { extrinsic: 1, hash: blake2(&data) }),
    );
    assert_eq!(pallet.unused_account_authorization_extent(5), AuthorizationExtent::default());
    let before = pallet.transaction_roots(1).unwrap()[1];
    pallet.on_finalize(6);
    let after = pallet.transaction_roots(6).unwrap()[0];
    assert_eq!(after, TransactionInfo { block_chunks: 8, ..before });
}

#[test]
fn renewing_needs_a_context_and_room() {
    let mut pallet = start(1);
    pallet.config.max_block_transactions = 1;
    pallet.authorize_account(Ok(()), 5, 9, 9000).unwrap();
    pallet.store(Origin::Signed(5), payload(100)).unwrap();
    pallet.on_finalize(1);
    enter(&mut pallet, 2, 0);
    pallet.system.extrinsic_index = None;
    assert_eq!(pallet.renew(Origin::Signed(5), 1, 0), refused(Error::BadContext));
    pallet.system.extrinsic_index = Some(0);
    assert_eq!(pallet.renew(Origin::Signed(5), 1, 0), Ok(()));
    assert_eq!(pallet.renew(Origin::Signed(5), 1, 0), refused(Error::TooManyTransactions));
    assert_eq!(pallet.index_operations.len(), 3);
    assert_eq!(pallet.block_transactions.len(), 1);
}

#[test]
fn discards_old_data() {
    let mut pallet = start(1);
    pallet.authorize_account(Ok(()), 5, 9, 9000).unwrap();
    pallet.store(Origin::Signed(5), payload(2000)).unwrap();
    pallet.on_finalize(1);
    let weight = pallet.on_initialize(11);
    assert_eq!(weight, Weight { ref_time: 275, proof_size: 0 });
    assert!(pallet.transaction_roots(1).is_some());
    assert_eq!(pallet.obsolete_block(12), 1);
    let weight = pallet.on_initialize(12);
    assert_eq!(weight, Weight { ref_time: 475, proof_size: 0 });
    assert!(pallet.transaction_roots(1).is_none());
    assert_eq!(pallet.chunk_count.get(&1), None);
}

#[test]
fn weights_saturate() {
    let mut pallet = start(1);
    pallet.config.db_weight = DbWeight { read: u64::MAX, write: 1 };
    assert_eq!(pallet.on_initialize(1), Weight { ref_time: u64::MAX, proof_size: 0 });
}

/// Stores `bodies` in block 1 and goes on to block 11.
fn stored_and_due(bodies: &Vec<Vec<u8>>, random: u64) -> Storage {
    let mut pallet = start(1);
    pallet.authorize_account(Ok(()), 5, 100, u64::MAX).unwrap();
    for body in bodies {
        pallet.store(Origin::Signed(5), body.clone()).unwrap();
    }
    pallet.on_finalize(1);
    enter(&mut pallet, 11, random);
    pallet
}

#[test]
fn checks_proofs() {
    let bodies = vec![payload(2000)];
    for random in [0, 3, 7, 8, u64::MAX] {
        let mut pallet = stored_and_due(&bodies, random);
        assert!(!pallet.is_proof_settled());
        let proof = proof_for(&pallet, bodies.clone());
        let chunk = (random % 8) as usize;
        assert_eq!(proof.chunk, bodies[0].chunks(256).nth(chunk).unwrap().to_vec());
        assert_eq!(
            pallet.check_proof(Origin::Signed(5), proof.clone()),
            Err(DispatchError::BadOrigin),
        );
        assert_eq!(pallet.check_proof(Origin::Root, proof.clone()), Err(DispatchError::BadOrigin));
        let mut wrong = proof.clone();
        wrong.chunk[0] ^= 1;
        assert_eq!(pallet.check_proof(Origin::Unsigned, wrong), refused(Error::InvalidProof));
        let mut wrong = proof.clone();
        wrong.proof.pop();
        assert_eq!(pallet.check_proof(Origin::Unsigned, wrong), refused(Error::InvalidProof));
        assert!(!pallet.proof_checked);
        assert_eq!(pallet.check_proof(Origin::Unsigned, proof.clone()), Ok(()));
        assert_eq!(pallet.events.last(), Some(&Event::ProofChecked));
        assert!(pallet.is_proof_settled());
        assert_eq!(pallet.check_proof(Origin::Unsigned, proof), refused(Error::DoubleCheck));
        pallet.on_finalize(11);
        assert!(!pallet.proof_checked);
    }
}

#[test]
fn checks_proofs_of_chunks_with_longer_keys() {
    let bodies = vec![payload(16_400 * 256 + 1)];
    for random in [63, 64, 16_383, 16_384, 16_400] {
        let mut pallet = stored_and_due(&bodies, random);
        let location = pallet.locate_chunk(Origin::Unsigned).unwrap();
        assert_eq!(location.chunk_index as u64, random);
        assert_eq!(location.chunk_root, pallet.transaction_roots(1).unwrap()[0].chunk_root);
        let proof = proof_for(&pallet, bodies.clone());
        assert_eq!(pallet.check_proof(Origin::Unsigned, proof), Ok(()));
    }
}

#[test]
fn checks_proofs_of_short_chunks() {
    for size in [1, 2, 31, 32, 33, 34, 255, 256, 257, 289] {
        let bodies = vec![payload(size)];
        let mut pallet = stored_and_due(&bodies, (size as u64 - 1) / 256);
        let proof = proof_for(&pallet, bodies.clone());
        assert_eq!(pallet.check_proof(Origin::Unsigned, proof), Ok(()));
    }
}

#[test]
fn locates_chunks_among_several_transactions() {
    let bodies = vec![payload(600), payload(100), payload(1000)];
    // Chunks 0 to 2, 3, and 4 to 7.
    for (random, place, chunk_index) in
        [(0, 0, 0), (2, 0, 2), (3, 1, 0), (4, 2, 0), (5, 2, 1), (7, 2, 3)]
    {
        let pallet = stored_and_due(&bodies, random);
        let location = pallet.locate_chunk(Origin::Unsigned).unwrap();
        assert_eq!(location.chunk_index, chunk_index);
        let kept = pallet.transaction_roots(1).unwrap();
        assert_eq!(location.chunk_root, kept[place].chunk_root);
    }
    for random in 0..8 {
        let mut pallet = stored_and_due(&bodies, random);
        let proof = proof_for(&pallet, bodies.clone());
        assert_eq!(pallet.check_proof(Origin::Unsigned, proof), Ok(()));
    }
}

#[test]
fn checks_the_first_chunk_of_a_later_transaction() {
    let bodies = vec![vec![1; 256], vec![2; 256]];
    let mut pallet = stored_and_due(&bodies, 1);
    let location = pallet.locate_chunk(Origin::Unsigned).unwrap();
    assert_eq!(location.chunk_root, pallet.transaction_roots(1).unwrap()[1].chunk_root);
    assert_eq!(location.chunk_index, 0);
    let proof = proof_for(&pallet, bodies.clone());
    assert_eq!(proof.chunk, bodies[1]);
    assert_eq!(pallet.check_proof(Origin::Unsigned, proof), Ok(()));
    pallet.on_finalize(11);
}

#[test]
fn refuses_unexpected_proofs() {
    let nothing = TransactionStorageProof { chunk: vec![], proof: vec![] };
    let mut early = start(10);
    assert_eq!(
        early.check_proof(Origin::Unsigned, nothing.clone()),
        refused(Error::UnexpectedProof),
    );
    let mut empty = start(11);
    assert_eq!(empty.proved_block(), 1);
    assert_eq!(empty.check_proof(Origin::Unsigned, nothing), refused(Error::UnexpectedProof));
    assert!(early.is_proof_settled() && empty.is_proof_settled());
}

#[test]
fn state_data_can_be_missing() {
    let nothing = TransactionStorageProof { chunk: vec![], proof: vec![] };
    let mut pallet = start(11);
    pallet.chunk_count.insert(1, 4);
    assert_eq!(
        pallet.check_proof(Origin::Unsigned, nothing.clone()),
        refused(Error::MissingStateData),
    );
    pallet.transactions.insert(1, vec![]);
    assert_eq!(pallet.check_proof(Origin::Unsigned, nothing), refused(Error::MissingStateData));
}

#[test]
fn concludes_proofs() {
    let mut pallet = start(11);
    assert_eq!(pallet.conclude_proof(false), refused(Error::InvalidProof));
    assert!(!pallet.proof_checked && pallet.events.is_empty());
    assert_eq!(pallet.conclude_proof(true), Ok(()));
    assert!(pallet.proof_checked);
    assert_eq!(pallet.events, vec![Event::ProofChecked]);
}

#[test]
fn indexes_transactions_with_given_hashes() {
    let mut pallet = start(1);
    pallet.authorize_account(Ok(()), 5, 1, 1000).unwrap();
    assert_eq!(
        pallet.index_transaction(Origin::Signed(5), [1; 32], [2; 32], 257, true),
        Ok(()),
    );
    assert_eq!(
        pallet.block_transactions,
        vec![TransactionInfo {
            chunk_root: [1; 32],
            content_hash: [2; 32],
            size: 257,
            block_chunks: 2,
        }],
    );
    assert_eq!(
        pallet.index_operations,
        vec![IndexOperation::Renew { extrinsic: 1, hash: [2; 32] }],
    );
}

#[test]
fn finds_flaws_in_the_configuration() {
    let with = |change: fn(&mut Config<u64>)| {
        let mut pallet = start(0);
        change(&mut pallet.config);
        pallet.integrity_test()
    };
    assert_eq!(with(|_| {}), Ok(()));
    assert_eq!(
        with(|c| c.authorization_period = 0),
        Err(IntegrityError::NoAuthorizationPeriod),
    );
    assert_eq!(with(|c| c.storage_period = 0), Err(IntegrityError::NoStoragePeriod));
    assert_eq!(
        with(|c| c.max_block_transactions = 0),
        Err(IntegrityError::NoBlockTransactions),
    );
    assert_eq!(with(|c| c.max_transaction_size = 0), Err(IntegrityError::NoTransactionSize));
}

#[test]
fn creates_inherents() {
    let mut data = InherentData::new();
    assert_eq!(Storage::create_inherent(&data), None);
    let provided = sp_transaction_storage_proof::TransactionStorageProof {
        chunk: vec![1, 2],
        proof: vec![vec![3], vec![]],
    };
    data.put_data(INHERENT_IDENTIFIER, &provided).unwrap();
    let call = Storage::create_inherent(&data).unwrap();
    let proof = TransactionStorageProof { chunk: vec![1, 2], proof: vec![vec![3], vec![]] };
    assert_eq!(call, Call::CheckProof { proof });
    assert!(Storage::is_inherent(&call));
    assert!(Storage::check_inherent(&call, &data).is_ok());
    assert!(!Storage::is_inherent(&Call::Renew { block: 1, index: 0 }));
    let mut unreadable = InherentData::new();
    unreadable.put_data(INHERENT_IDENTIFIER, &0xffu8).unwrap();
    assert_eq!(Storage::create_inherent(&unreadable), None);
}
