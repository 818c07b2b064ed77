use blockchain::block::{Block, BlockContent};
use blockchain::blockchain::Blockchain;
use blockchain::error::Error;
use blockchain::ledger::{Ledger, PartialLedger, UserData};
use blockchain::merkle::Merkle;
use blockchain::mining::Miner;
use blockchain::network::{block_message, parse_message, transaction_message, Message, PacketKind};
use blockchain::node::{on_new_block, NodeCache};
use blockchain::num::Num;
use blockchain::reader::{read_u32, Reader};
use blockchain::sha256::Sha256Hash;
use blockchain::time::Time;
use blockchain::transaction::Transaction;
use blockchain::user::{PublicUser, User};

fn mined(content: BlockContent) -> Block {
    let (pow, hash) = Miner::mine(&content, Merkle::DIFFICULTY).unwrap();
    Block::new_mined(content, pow, hash)
}

fn coinbase_block(to: &PublicUser, value: u64, nonce: u64, index: u32, prev: Sha256Hash) -> Block {
    let tx = Transaction::new(User::new_coinbase(), *to, Num::from_u64(value), nonce);
    mined(BlockContent::new(index, Time::from_second(0), prev, vec![tx]))
}

fn copy_user(u: &User) -> User {
    User { key_pair: u.key_pair }
}

#[test]
fn mine_and_add_updates_main_ledger() {
    let mut tree = Merkle::new_from_nothingness();
    let alice = User::from_nothingness().as_public();
    let b1 = coinbase_block(&alice, 10, 1, 1, Sha256Hash::zero());
    assert_eq!(tree.add_block(b1), Ok(()));
    assert_eq!(tree.main().len(), 2);
    let ledger = &tree.main().ledger;
    assert_eq!(ledger.users.len(), 1);
    assert_eq!(ledger.users[0].user, alice);
    assert_eq!(ledger.users[0].money, Num::from_u64(10));
    assert_eq!(ledger.nonces_transaction, vec![1u64]);
}

#[test]
fn signed_transfer_moves_money() {
    let mut tree = Merkle::new_from_nothingness();
    let alice = User::from_nothingness();
    let alice_pub = alice.as_public();
    let bob = User::from_nothingness().as_public();
    let b1 = coinbase_block(&alice_pub, 10, 1, 1, Sha256Hash::zero());
    let h1 = b1.hash;
    assert_eq!(tree.add_block(b1), Ok(()));
    let pay = Transaction::new(copy_user(&alice), bob, Num::from_u64(4), 2);
    assert_eq!(pay.verify(Num::from_u64(10)), Ok(()));
    let b2 = mined(BlockContent::new(2, Time::from_second(1), h1, vec![pay]));
    assert_eq!(tree.add_block(b2), Ok(()));
    let ledger = &tree.main().ledger;
    assert_eq!(ledger.users.len(), 2);
    assert_eq!(ledger.users[0].user, alice_pub);
    assert_eq!(ledger.users[0].money, Num::from_u64(6));
    assert_eq!(ledger.users[1].user, bob);
    assert_eq!(ledger.users[1].money, Num::from_u64(4));
    assert_eq!(ledger.nonces_transaction, vec![2u64, 1u64]);
}

#[test]
fn transaction_errors() {
    let alice = User::from_nothingness();
    let bob = User::from_nothingness().as_public();
    let zero = Transaction::new(copy_user(&alice), bob, Num::from_u64(0), 1);
    assert_eq!(zero.verify(Num::from_u64(100)), Err(Error::TransactionOf0));
    let too_much = Transaction::new(copy_user(&alice), bob, Num::from_u64(50), 2);
    assert_eq!(too_much.verify(Num::from_u64(49)), Err(Error::SenderDoNotHaveEnoughMoney));
    assert_eq!(too_much.verify(Num::from_u64(50)), Ok(()));
    let mut forged = Transaction::new(copy_user(&alice), bob, Num::from_u64(5), 3);
    forged.content.value = Num::from_u64(6);
    assert_eq!(forged.verify(Num::from_u64(100)), Err(Error::WrongTransactionSignature));
    let coinbase = Transaction::new_from_coinbase(&bob, &Num::from_u64(7));
    assert!(coinbase.content.from.is_coinbase());
    assert_eq!(coinbase.verify(Num::zero()), Ok(()));
}

#[test]
fn ledger_rejects_double_spend_and_unknown_sender() {
    let parent = Ledger::empty();
    let alice = User::from_nothingness();
    let bob = User::from_nothingness().as_public();
    let mut partial = PartialLedger::empty();
    let mint = Transaction::new(User::new_coinbase(), alice.as_public(), Num::from_u64(3), 9);
    assert_eq!(partial.apply_transaction(&parent, &mint), Ok(()));
    assert_eq!(partial.apply_transaction(&parent, &mint), Err(Error::TransactionWasAlreadyDone));
    let unknown = Transaction::new(User::from_nothingness(), bob, Num::from_u64(1), 10);
    assert_eq!(
        partial.apply_transaction(&parent, &unknown),
        Err(Error::TryingToSendMoneyFromUnknowUser)
    );
    assert_eq!(partial.nonces_transaction, vec![9u64]);
    let l = partial.to_ledger(&parent);
    assert_eq!(l.users.len(), 1);
    assert_eq!(l.users[0].money, Num::from_u64(3));
}

#[test]
fn credit_past_the_largest_amount_overflows() {
    let parent = Ledger::empty();
    let alice = User::from_nothingness().as_public();
    let mut partial = PartialLedger::empty();
    let big = Num { value: u128::MAX };
    let t1 = Transaction::new(User::new_coinbase(), alice, big, 1);
    let t2 = Transaction::new(User::new_coinbase(), alice, Num::from_u64(1), 2);
    assert_eq!(partial.apply_transaction(&parent, &t1), Ok(()));
    assert_eq!(partial.apply_transaction(&parent, &t2), Err(Error::AmountOverflow));
    assert_eq!(partial.nonces_transaction, vec![1u64]);
    assert_eq!(partial.users[0].money, big);
}

#[test]
fn to_ledger_puts_partial_first() {
    let a = User::from_nothingness().as_public();
    let b = User::from_nothingness().as_public();
    let parent = Ledger {
        users: vec![UserData { user: a, money: Num::from_u64(5) }],
        nonces_transaction: vec![1, 2],
    };
    let partial = PartialLedger {
        users: vec![UserData { user: b, money: Num::from_u64(7) }],
        nonces_transaction: vec![3],
    };
    let l = partial.to_ledger(&parent);
    assert_eq!(l.nonces_transaction, vec![3u64, 1, 2]);
    assert_eq!(l.users.len(), 2);
    assert_eq!(l.users[0].user, b);
    assert_eq!(l.users[1].user, a);
}

#[test]
fn failed_add_leaves_tree_unchanged() {
    let mut tree = Merkle::new_from_nothingness();
    let alice = User::from_nothingness().as_public();
    let b1 = coinbase_block(&alice, 10, 1, 1, Sha256Hash::zero());
    let h1 = b1.hash;
    assert_eq!(tree.add_block(b1), Ok(()));
    let before = tree.to_bytes();
    let spent_again = coinbase_block(&alice, 10, 1, 2, h1);
    assert_eq!(tree.add_block(spent_again), Err(Error::TransactionWasAlreadyDone));
    assert_eq!(tree.to_bytes(), before);
    let orphan = coinbase_block(&alice, 10, 2, 2, Sha256Hash { hi: 0, lo: 77 });
    assert_eq!(tree.add_block(orphan), Err(Error::PreviousBlockNotFound));
    assert_eq!(tree.to_bytes(), before);
}

#[test]
fn block_already_held_is_refused() {
    let mut tree = Merkle::new_from_nothingness();
    let alice = User::from_nothingness().as_public();
    let b1 = coinbase_block(&alice, 10, 1, 1, Sha256Hash::zero());
    let again = b1.clone();
    assert_eq!(tree.add_block(b1), Ok(()));
    assert_eq!(tree.add_block(again), Err(Error::BlockAlreadyExist));
}

#[test]
fn block_check_errors() {
    assert_eq!(Block::new_genesis().verify(Merkle::DIFFICULTY), Err(Error::VerifyingGenesisBlock));
    let alice = User::from_nothingness().as_public();
    let tx = Transaction::new(User::new_coinbase(), alice, Num::from_u64(1), 1);
    let content = BlockContent::new(1, Time::from_second(0), Sha256Hash::zero(), vec![tx]);
    let no_work = Block::new_mined(content.clone(), 0, Sha256Hash { hi: 0xFF, lo: 0 });
    assert_eq!(no_work.verify(Merkle::DIFFICULTY), Err(Error::BlockProofOfWorkIsNotDone));
    let bad_hash = Block::new_mined(content, 0, Sha256Hash { hi: 0, lo: 1 });
    assert_eq!(bad_hash.verify(Merkle::DIFFICULTY), Err(Error::BlockHashIsInvalid));
}

#[test]
fn equal_length_fork_keeps_main() {
    let mut tree = Merkle::new_from_nothingness();
    let alice = User::from_nothingness().as_public();
    let a1 = coinbase_block(&alice, 1, 1, 1, Sha256Hash::zero());
    let b1 = coinbase_block(&alice, 1, 2, 1, Sha256Hash::zero());
    let b1_hash = b1.hash;
    assert_eq!(tree.add_block(a1), Ok(()));
    assert_eq!(tree.add_block(b1), Ok(()));
    assert_eq!(tree.chains.len(), 2);
    assert_eq!(tree.main, 0);
    let b2 = coinbase_block(&alice, 1, 3, 2, b1_hash);
    assert_eq!(tree.add_block(b2), Ok(()));
    assert_eq!(tree.main, 1);
    assert_eq!(tree.main().ledger.nonces_transaction, vec![3u64, 2]);
    for chain in tree.chains.iter() {
        assert_eq!(chain.verify(&tree.blocks), Ok(()));
        assert_eq!(Ledger::new_unsafe(&chain.index, &tree.blocks), chain.ledger);
    }
}

#[test]
fn fork_from_inner_block_replays_prefix() {
    let mut tree = Merkle::new_from_nothingness();
    let alice = User::from_nothingness().as_public();
    let a1 = coinbase_block(&alice, 1, 1, 1, Sha256Hash::zero());
    let h1 = a1.hash;
    let a2 = coinbase_block(&alice, 1, 2, 2, h1);
    assert_eq!(tree.add_block(a1), Ok(()));
    assert_eq!(tree.add_block(a2), Ok(()));
    let f2 = coinbase_block(&alice, 1, 3, 2, h1);
    assert_eq!(tree.add_block(f2), Ok(()));
    assert_eq!(tree.chains.len(), 2);
    assert_eq!(tree.chains[1].index, vec![0u32, 1, 3]);
    assert_eq!(tree.chains[1].ledger.nonces_transaction, vec![3u64, 1]);
    assert_eq!(tree.main, 0);
}

#[test]
fn candidate_block_starts_with_reward() {
    let mut tree = Merkle::new_from_nothingness();
    let alice = User::from_nothingness();
    let miner = User::from_nothingness().as_public();
    let b1 = coinbase_block(&alice.as_public(), 10, 1, 1, Sha256Hash::zero());
    let h1 = b1.hash;
    assert_eq!(tree.add_block(b1), Ok(()));
    let spent = Transaction::new(User::new_coinbase(), miner, Num::from_u64(2), 1);
    let fresh = Transaction::new(copy_user(&alice), miner, Num::from_u64(2), 5);
    let c = BlockContent::new_from_pending_transaction(&vec![spent, fresh], &tree, &miner);
    assert_eq!(c.index, 2);
    assert_eq!(c.prev_block_hash, h1);
    assert_eq!(c.transactions.len(), 2);
    assert!(c.transactions[0].content.from.is_coinbase());
    assert_eq!(c.transactions[0].content.to, miner);
    assert_eq!(c.transactions[0].content.value, Num::from_u64(1));
    assert_eq!(c.transactions[1], fresh);
}

#[test]
fn node_cache_and_new_block() {
    let mut tree = Merkle::new_from_nothingness();
    let alice = User::from_nothingness();
    let me = User::from_nothingness().as_public();
    let b1 = coinbase_block(&alice.as_public(), 10, 1, 1, Sha256Hash::zero());
    assert!(on_new_block(&mut tree, &mut NodeCache::new(), b1, &me).is_ok());
    let mut cache = NodeCache::new();
    let t1 = Transaction::new(copy_user(&alice), me, Num::from_u64(6), 2);
    let t2 = Transaction::new(copy_user(&alice), me, Num::from_u64(6), 3);
    assert_eq!(cache.push(&tree, &t1), Ok(()));
    assert_eq!(cache.push(&tree, &t2), Err(Error::SenderDoNotHaveEnoughMoney));
    assert_eq!(cache.push(&tree, &t1), Err(Error::TransactionWasAlreadyDone));
    assert_eq!(cache.pending_transactions.len(), 1);
    let tip = tree.main_tip().hash;
    let b2 = coinbase_block(&me, 1, 4, 2, tip);
    let again = b2.clone();
    let candidate = on_new_block(&mut tree, &mut cache, b2, &me).unwrap();
    assert_eq!(candidate.index, 3);
    assert_eq!(candidate.transactions.len(), 2);
    assert_eq!(candidate.transactions[1], t1);
    assert_eq!(cache.pending_transactions.len(), 0);
    assert_eq!(cache.push(&tree, &t2), Ok(()));
    assert_eq!(
        on_new_block(&mut tree, &mut cache, again, &me).err(),
        Some(Error::BlockAlreadyExist)
    );
    assert_eq!(cache.pending_transactions.len(), 1);
}

#[test]
fn round_trips() {
    let big = Num { value: u128::MAX };
    assert_eq!(big.to_string(), "340282366920938463463374607431768211455");
    assert_eq!(Num::from_bytes(&big.to_bytes()), Ok(big));
    assert_eq!(Num::from_u64(10).to_bytes(), vec![0u8, 0, 0, 2, b'1', b'0']);
    let t = Time { millis: 2005 };
    assert_eq!(t.to_u128(), 2005);
    assert_eq!((t.secs(), t.subsec_millis()), (2, 5));
    assert_eq!(Time::from_second(2).to_u128(), 2000);
    assert_eq!(Time::from_u128(2005), t);
    assert_eq!(t.to_bytes()[14..], [7u8, 213]);
    assert_eq!(Time::from_bytes(t.to_bytes()), t);
    let mut tree = Merkle::new_from_nothingness();
    let alice = User::from_nothingness().as_public();
    assert_eq!(tree.add_block(coinbase_block(&alice, 3, 1, 1, Sha256Hash::zero())), Ok(()));
    let chain = &tree.chains[0];
    assert_eq!(Blockchain::from_bytes(&chain.to_bytes()).as_ref(), Ok(chain));
    assert_eq!(Ledger::from_bytes(&chain.ledger.to_bytes()).as_ref(), Ok(&chain.ledger));
    let back = Merkle::from_bytes(&tree.to_bytes()).unwrap();
    assert_eq!(back, tree);
    assert_eq!(back.main().ledger, tree.main().ledger);
}

#[test]
fn codec_errors_and_layout() {
    let mut r = Reader::new(vec![0, 0, 1, 2, 9]);
    let mut u: u32 = 0;
    assert_eq!(read_u32(&mut r, &mut u), Ok(()));
    assert_eq!(u, 258);
    assert_eq!(read_u32(&mut r, &mut u), Err(Error::EndOfBuffer));
    assert!(Num::from_bytes(&vec![0, 0, 0, 2, b'1', b'x']).is_err());
    assert!(Block::from_bytes(&vec![1, 2, 3]).is_err());
    let tx = Transaction::new_from_coinbase(&User::from_nothingness().as_public(), &Num::from_u64(1));
    let bytes = tx.to_bytes();
    assert_eq!(bytes.len(), 64 + 32 + 32 + 8 + 4 + 1);
    let msg = transaction_message(&tx);
    assert_eq!(&msg[0..4], &[0u8, 0, 0, 1]);
    match parse_message(&msg) {
        Ok(Message::Transaction(back)) => assert_eq!(back, tx),
        _ => panic!("transaction message did not parse"),
    }
    let block = Block::new_genesis();
    match parse_message(&block_message(&block)) {
        Ok(Message::Block(back)) => assert_eq!(back, block),
        _ => panic!("block message did not parse"),
    }
    assert_eq!(PacketKind::ReceiveMerkle.code(), 4);
    assert!(parse_message(&vec![0, 0, 0, 9]).is_err());
}

#[test]
fn outside_primitives() {
    let h = Sha256Hash::new(b"abc");
    assert_eq!(h.hi, 0xba7816bf8f01cfea414140de5dae2223);
    assert_eq!(h.lo, 0xb00361a396177a9cb410ff61f20015ad);
    let now = Time::now();
    assert!(now.subsec_millis() < 1000);
    assert!(now.secs() > 0);
    assert_eq!(Sha256Hash::new(b"abc").to_bytes()[0..2], [0xbau8, 0x78]);
    let a = User::from_nothingness().as_public();
    let b = User::from_nothingness().as_public();
    assert_ne!(a, b);
    assert!(!a.is_coinbase());
    assert!(PublicUser::new_coinbase().is_coinbase());
    let content = BlockContent::new(1, Time::zero(), Sha256Hash::zero(), vec![]);
    let (pow, hash) = Miner::mine(&content, Merkle::DIFFICULTY).unwrap();
    assert_eq!(Block::new_mined(content, pow, hash).hash(), hash);
    assert!(Miner::check_difficulty(&hash, Merkle::DIFFICULTY));
}

#[test]
fn snapshot_request_carries_address() {
    let msg = blockchain::network::ask_merkle_message("127.0.0.1:5334".to_string());
    assert_eq!(&msg[0..8], &[0u8, 0, 0, 3, 0, 0, 0, 14]);
    match parse_message(&msg) {
        Ok(Message::AskMerkle(addr)) => assert_eq!(addr, "127.0.0.1:5334"),
        _ => panic!("snapshot request did not parse"),
    }
    let mut bad = msg.clone();
    bad[8] = 0xFF;
    assert!(parse_message(&bad).is_err());
}

#[test]
fn user_from_key_pair_keeps_public_half() {
    let kp = ed25519_dalek::Keypair::generate(&mut rand::rngs::OsRng);
    let public = kp.public.to_bytes();
    let user = User::new(kp);
    assert_eq!(user.as_public().to_bytes(), public);
    let t = Transaction::new(user, User::from_nothingness().as_public(), Num::from_u64(1), 1);
    assert_eq!(t.verify(Num::from_u64(1)), Ok(()));
}

#[test]
fn large_tree_round_trip_and_snapshot_adoption() {
    let mut tree = Merkle::new_from_nothingness();
    let alice = User::from_nothingness().as_public();
    let a1 = coinbase_block(&alice, 1, 1, 1, Sha256Hash::zero());
    let h1 = a1.hash;
    assert_eq!(tree.add_block(a1), Ok(()));
    assert_eq!(tree.add_block(coinbase_block(&alice, 1, 2, 2, h1)), Ok(()));
    assert_eq!(tree.add_block(coinbase_block(&alice, 1, 3, 1, Sha256Hash::zero())), Ok(()));
    let back = Merkle::from_bytes(&tree.to_bytes()).unwrap();
    let adopted = Merkle::adopt(&back);
    assert_eq!(adopted, tree);
}

#[test]
fn supervisor_drops_stale_results() {
    let mut s = blockchain::mining::MiningSupervisor::new();
    assert_eq!(s.start(), (false, 1));
    assert_eq!(s.start(), (true, 2));
    assert!(!s.accept(1));
    assert!(s.accept(2));
    assert!(!s.accept(2));
    assert_eq!(s.start(), (false, 3));
    assert!(s.stop());
    assert!(!s.accept(3));
    assert!(!s.stop());
}

#[test]
fn merge_skips_what_the_result_holds() {
    let a = User::from_nothingness().as_public();
    let parent = Ledger {
        users: vec![
            UserData { user: a, money: Num::from_u64(5) },
            UserData { user: a, money: Num::from_u64(9) },
        ],
        nonces_transaction: vec![5, 5, 6],
    };
    let l = PartialLedger::empty().to_ledger(&parent);
    assert_eq!(l.nonces_transaction, vec![5u64, 6]);
    assert_eq!(l.users.len(), 1);
    assert_eq!(l.users[0].money, Num::from_u64(5));
}

#[test]
fn only_the_head_genesis_is_skipped() {
    let blocks = vec![Block::new_genesis(), Block::new_genesis()];
    let twice = Blockchain::new(vec![0, 1], Ledger::empty());
    assert_eq!(twice.verify(&blocks), Err(Error::BlockIndexAreNotContiguous));
    let once = Blockchain::new(vec![0], Ledger::empty());
    assert_eq!(once.verify(&blocks), Ok(()));
}

#[test]
fn coinbase_with_given_nonce_and_odd_timestamp() {
    let alice = User::from_nothingness().as_public();
    let tx = Transaction::new_coinbase_with_nonce(&alice, &Num::from_u64(1), 8);
    assert_eq!(tx.content.nonce, 8);
    assert!(tx.content.from.is_coinbase());
    let stamp = Time { millis: 1999 };
    let block = mined(BlockContent::new(1, stamp, Sha256Hash::zero(), vec![tx]));
    assert_eq!(block.verify(Merkle::DIFFICULTY), Ok(()));
    assert_eq!(Block::from_bytes(&block.to_bytes()), Ok(block.clone()));
    let mut tree = Merkle::new_from_nothingness();
    assert_eq!(tree.add_block(block), Ok(()));
    assert_eq!(Block::from_bytes(&vec![1, 2, 3]).err(), Some(Error::InvalidFormat));
}

#[test]
fn one_proof_of_work_try() {
    let content = BlockContent::new(1, Time::zero(), Sha256Hash::zero(), vec![]);
    let bytes = content.to_bytes();
    let (pow, hash) = Miner::try_proof_of_work(&bytes, 42, 0).unwrap();
    assert_eq!(pow, 42);
    assert_eq!(Block::new_mined(content.clone(), 42, hash).hash(), hash);
    let strict = Miner::try_proof_of_work(&bytes, 42, u128::MAX);
    assert_eq!(strict.is_some(), hash.hi == 0);
    assert!(Miner::mine_attempts(&content, 0, 1).is_some());
    assert!(Miner::mine_attempts(&content, 0, 0).is_none());
}

#[test]
fn adoption_drops_blocks_that_do_not_apply() {
    let mut tree = Merkle::new_from_nothingness();
    let alice = User::from_nothingness().as_public();
    let good = coinbase_block(&alice, 1, 1, 1, Sha256Hash::zero());
    let h = good.hash;
    assert_eq!(tree.add_block(good), Ok(()));
    let mut snapshot = Merkle::from_bytes(&tree.to_bytes()).unwrap();
    snapshot.blocks.push(coinbase_block(&alice, 1, 1, 2, h));
    let adopted = Merkle::adopt(&snapshot);
    assert_eq!(adopted, tree);
}
