use vstd::prelude::*;

use crate::block::Block;
use crate::blockchain::{in_pool, replay};
use crate::error::Error;
use crate::num::Num;
use crate::reader::{lemma_vec_round_trip, parse_vec, read_vec_struct, read_vec_u64, Reader, Readable};
use crate::transaction::{verify_outcome, Transaction, TransactionView};
use crate::user::{is_coinbase_key, PublicUser};
use crate::writer::{encode_vec, views, write_vec_struct, write_vec_u64, Writable};

verus! {

pub struct UserDataView {
    pub user: Seq<u8>,
    pub money: Num,
}

pub struct LedgerView {
    pub users: Seq<UserDataView>,
    pub nonces: Seq<u64>,
}

/// The balance of one account.
#[derive(Debug, Clone, Copy)]
pub struct UserData {
    pub user: PublicUser,
    pub money: Num,
}

/// Balances, in the order accounts first appeared, and the nonces of every transaction applied.
#[derive(Debug)]
pub struct Ledger {
    pub users: Vec<UserData>,
    pub nonces_transaction: Vec<u64>,
}

/// The accounts and nonces that one block's transactions touch, on top of a parent ledger.
#[derive(Debug)]
pub struct PartialLedger {
    pub users: Vec<UserData>,
    pub nonces_transaction: Vec<u64>,
}

impl View for UserData {
    type V = UserDataView;

    open spec fn view(&self) -> UserDataView {
        UserDataView { user: self.user@, money: self.money }
    }
}

impl View for Ledger {
    type V = LedgerView;

    open spec fn view(&self) -> LedgerView {
        LedgerView { users: views(self.users@), nonces: self.nonces_transaction@ }
    }
}

impl View for PartialLedger {
    type V = LedgerView;

    open spec fn view(&self) -> LedgerView {
        LedgerView { users: views(self.users@), nonces: self.nonces_transaction@ }
    }
}

pub open spec fn empty_ledger() -> LedgerView {
    LedgerView { users: seq![], nonces: seq![] }
}

/// `i` is the first position of account `u` in `users`.
pub open spec fn is_first_user(users: Seq<UserDataView>, u: Seq<u8>, i: int) -> bool {
    0 <= i < users.len() && users[i].user == u && forall|j: int|
        0 <= j < i ==> #[trigger] users[j].user != u
}

/// The first position of account `u` in `users`, if it is there.
pub open spec fn find_user(users: Seq<UserDataView>, u: Seq<u8>) -> Option<int> {
    if exists|i: int| is_first_user(users, u, i) {
        Some(choose|i: int| is_first_user(users, u, i))
    } else {
        None
    }
}

pub proof fn lemma_first_user_unique(users: Seq<UserDataView>, u: Seq<u8>, i: int)
    requires
        is_first_user(users, u, i),
    ensures
        find_user(users, u) == Some(i),
{
    let k = choose|k: int| is_first_user(users, u, k);
    assert(is_first_user(users, u, k));
    if k < i {
        assert(users[k].user != u);
    }
    if i < k {
        assert(users[i].user != u);
    }
}

/// The balance of `u` as seen through `users` over the parent ledger.
pub open spec fn balance_in(parent: LedgerView, users: Seq<UserDataView>, u: Seq<u8>) -> Option<Num> {
    match find_user(users, u) {
        Some(i) => Some(users[i].money),
        None => match find_user(parent.users, u) {
            Some(j) => Some(parent.users[j].money),
            None => None,
        },
    }
}

/// `users` with the balance of `u` set to `m`, the account appended where it is new.
pub open spec fn set_money(users: Seq<UserDataView>, u: Seq<u8>, m: Num) -> Seq<UserDataView> {
    match find_user(users, u) {
        Some(i) => users.update(i, UserDataView { user: u, money: m }),
        None => users.push(UserDataView { user: u, money: m }),
    }
}

/// What applying `tx` on top of the partial ledger `p` over `parent` gives: a nonce already
/// spent is refused; a sender other than the coinbase must be known, pass the transaction's
/// check and is debited; the nonce is recorded and the receiver credited.
pub open spec fn apply_outcome(parent: LedgerView, p: LedgerView, tx: TransactionView) -> Result<
    LedgerView,
    Error,
> {
    let from = tx.content.from;
    let to = tx.content.to;
    let value = tx.content.value.value;
    let coinbase = is_coinbase_key(from);
    if parent.nonces.contains(tx.content.nonce) || p.nonces.contains(tx.content.nonce) {
        Err(Error::TransactionWasAlreadyDone)
    } else if !coinbase && balance_in(parent, p.users, from) is None {
        Err(Error::TryingToSendMoneyFromUnknowUser)
    } else if !coinbase && verify_outcome(tx, balance_in(parent, p.users, from)->0.value) is Err {
        Err(verify_outcome(tx, balance_in(parent, p.users, from)->0.value)->Err_0)
    } else {
        let users_debited = if coinbase {
            p.users
        } else {
            set_money(
                p.users,
                from,
                Num { value: (balance_in(parent, p.users, from)->0.value - value) as u128 },
            )
        };
        let before = match balance_in(parent, users_debited, to) {
            Some(b) => b.value as int,
            None => 0,
        };
        if before + value > u128::MAX {
            Err(Error::AmountOverflow)
        } else {
            Ok(
                LedgerView {
                    users: set_money(users_debited, to, Num { value: (before + value) as u128 }),
                    nonces: p.nonces.push(tx.content.nonce),
                },
            )
        }
    }
}

/// `acc` followed by the nonces of `ns`, in order, each one skipped where the result
/// already holds it.
pub open spec fn add_missing_nonces(acc: Seq<u64>, ns: Seq<u64>) -> Seq<u64>
    decreases ns.len(),
{
    if ns.len() == 0 {
        acc
    } else {
        let a = add_missing_nonces(acc, ns.drop_last());
        if a.contains(ns.last()) {
            a
        } else {
            a.push(ns.last())
        }
    }
}

/// `acc` followed by the accounts of `us`, in order, each one skipped where the result
/// already holds an account with its key.
pub open spec fn add_missing_users(acc: Seq<UserDataView>, us: Seq<UserDataView>) -> Seq<
    UserDataView,
>
    decreases us.len(),
{
    if us.len() == 0 {
        acc
    } else {
        let a = add_missing_users(acc, us.drop_last());
        if find_user(a, us.last().user) is Some {
            a
        } else {
            a.push(us.last())
        }
    }
}

/// The ledger that the partial ledger `p` over `parent` stands for: the union of both, `p`'s
/// nonces and accounts first, then those of `parent` that the result does not hold yet.
pub open spec fn merged(p: LedgerView, parent: LedgerView) -> LedgerView {
    LedgerView {
        users: add_missing_users(p.users, parent.users),
        nonces: add_missing_nonces(p.nonces, parent.nonces),
    }
}

pub open spec fn opt_index(o: Option<usize>) -> Option<int> {
    match o {
        Some(i) => Some(i as int),
        None => None,
    }
}

pub proof fn lemma_set_money_find(users: Seq<UserDataView>, a: Seq<u8>, m: Num, b: Seq<u8>)
    ensures
        b == a ==> (find_user(set_money(users, a, m), a) matches Some(k) && set_money(
            users,
            a,
            m,
        )[k].money == m),
        b != a ==> find_user(set_money(users, a, m), b) == find_user(users, b) && (find_user(
            users,
            b,
        ) matches Some(k) ==> set_money(users, a, m)[k] == users[k]),
{
    let s = set_money(users, a, m);
    match find_user(users, a) {
        Some(i) => {
            assert(is_first_user(users, a, i));
            if b == a {
                assert(is_first_user(s, a, i));
                lemma_first_user_unique(s, a, i);
            } else {
                match find_user(users, b) {
                    Some(k) => {
                        assert(is_first_user(users, b, k));
                        assert(k != i);
                        assert(is_first_user(s, b, k));
                        lemma_first_user_unique(s, b, k);
                    },
                    None => {
                        if exists|k: int| is_first_user(s, b, k) {
                            let k = choose|k: int| is_first_user(s, b, k);
                            assert(k != i);
                            assert forall|j: int| 0 <= j < k implies #[trigger] users[j].user
                                != b by {
                                assert(s[j].user != b);
                            }
                            assert(is_first_user(users, b, k));
                            lemma_first_user_unique(users, b, k);
                        }
                    },
                }
            }
        },
        None => {
            if b == a {
                assert forall|j: int| 0 <= j < users.len() implies #[trigger] users[j].user != a by {
                    if users[j].user == a {
                        if !(exists|i: int| is_first_user(users, a, i)) {
                            lemma_some_first(users, a, j);
                        }
                    }
                }
                assert(is_first_user(s, a, users.len() as int));
                lemma_first_user_unique(s, a, users.len() as int);
            } else {
                match find_user(users, b) {
                    Some(k) => {
                        assert(is_first_user(users, b, k));
                        assert(is_first_user(s, b, k));
                        lemma_first_user_unique(s, b, k);
                    },
                    None => {
                        if exists|k: int| is_first_user(s, b, k) {
                            let k = choose|k: int| is_first_user(s, b, k);
                            assert(k < users.len());
                            assert forall|j: int| 0 <= j < k implies #[trigger] users[j].user
                                != b by {
                                assert(s[j].user != b);
                            }
                            assert(is_first_user(users, b, k));
                            lemma_first_user_unique(users, b, k);
                        }
                    },
                }
            }
        },
    }
}

/// Where an account occurs, it has a first position.
pub proof fn lemma_some_first(users: Seq<UserDataView>, u: Seq<u8>, j: int)
    requires
        0 <= j < users.len(),
        users[j].user == u,
    ensures
        exists|i: int| is_first_user(users, u, i),
    decreases j,
{
    if exists|i: int| 0 <= i < j && users[i].user == u {
        let i = choose|i: int| 0 <= i < j && users[i].user == u;
        lemma_some_first(users, u, i);
    } else {
        assert(is_first_user(users, u, j));
    }
}

/// Whether `n` is among `v`.
fn has_nonce(v: &Vec<u64>, n: u64) -> (r: bool)
    ensures
        r == v@.contains(n),
{
    let mut i: usize = 0;
    while i < v.len()
        invariant
            i <= v@.len(),
            forall|j: int| 0 <= j < i ==> v@[j] != n,
        decreases v@.len() - i,
    {
        if v[i] == n {
            assert(v@[i as int] == n);
            return true;
        }
        i = i + 1;
    }
    false
}

/// The first position of `u` among `users`.
fn find_in(users: &Vec<UserData>, u: &PublicUser) -> (r: Option<usize>)
    ensures
        opt_index(r) == find_user(views(users@), u@),
        r matches Some(i) ==> i < users@.len(),
{
    let ghost vs = views(users@);
    let mut i: usize = 0;
    while i < users.len()
        invariant
            i <= users@.len(),
            vs == views(users@),
            forall|j: int| 0 <= j < i ==> #[trigger] vs[j].user != u@,
        decreases users@.len() - i,
    {
        if users[i].user.same(u) {
            proof {
                assert(is_first_user(vs, u@, i as int));
                lemma_first_user_unique(vs, u@, i as int);
            }
            return Some(i);
        }
        i = i + 1;
    }
    proof {
        if exists|k: int| is_first_user(vs, u@, k) {
            let k = choose|k: int| is_first_user(vs, u@, k);
            assert(vs[k].user == u@);
        }
    }
    None
}

/// The balance of `u` in `users`, else in the parent ledger.
fn balance_of(parent: &Ledger, users: &Vec<UserData>, u: &PublicUser) -> (r: Option<Num>)
    ensures
        r == balance_in(parent@, views(users@), u@),
{
    match find_in(users, u) {
        Some(i) => Some(users[i].money),
        None => match find_in(&parent.users, u) {
            Some(j) => Some(parent.users[j].money),
            None => None,
        },
    }
}

/// Sets the balance of `u` to `m`, appending the account where it is new.
fn store_money(users: &mut Vec<UserData>, u: &PublicUser, m: Num)
    ensures
        views(final(users)@) == set_money(views(old(users)@), u@, m),
{
    let d = UserData { user: *u, money: m };
    match find_in(users, u) {
        Some(i) => {
            users[i] = d;
            assert(views(users@) =~= set_money(views(old(users)@), u@, m));
        },
        None => {
            users.push(d);
            assert(views(users@) =~= set_money(views(old(users)@), u@, m));
        },
    }
}

/// A copy of a vector of plain values.
pub(crate) fn copy_vec<T: Copy>(v: &Vec<T>) -> (r: Vec<T>)
    ensures
        r@ == v@,
{
    let mut out: Vec<T> = Vec::new();
    let mut i: usize = 0;
    while i < v.len()
        invariant
            i <= v@.len(),
            out@ == v@.take(i as int),
        decreases v@.len() - i,
    {
        out.push(v[i]);
        i = i + 1;
        assert(out@ =~= v@.take(i as int));
    }
    assert(v@.take(i as int) =~= v@);
    out
}

impl UserData {
    pub fn new(user: PublicUser) -> (r: UserData)
        ensures
            r.user@ == user@,
            r.money.value == 0,
    {
        UserData { user, money: Num::zero() }
    }

    pub fn zero() -> (r: UserData)
        ensures
            is_coinbase_key(r.user@),
            r.money.value == 0,
    {
        UserData { user: PublicUser::new_coinbase(), money: Num::zero() }
    }

    pub fn to_bytes(&self) -> (r: Vec<u8>)
        ensures
            r@ == Self::encode(self@),
    {
        let mut bytes: Vec<u8> = Vec::new();
        self.to_writer(&mut bytes);
        assert(bytes@ =~= Self::encode(self@));
        bytes
    }

    pub fn from_bytes(bytes: &Vec<u8>) -> (r: Result<UserData, Error>)
        ensures
            match Self::parse(bytes@) {
                Some((v, _)) => r matches Ok(d) && d@ == v,
                None => r matches Err(e) && crate::reader::codec_error(e),
            },
    {
        let mut reader = Reader::new(bytes.clone());
        Self::from_reader(&mut reader)
    }
}

impl Ledger {
    pub fn empty() -> (r: Ledger)
        ensures
            r@ == empty_ledger(),
    {
        let r = Ledger { users: Vec::new(), nonces_transaction: Vec::new() };
        assert(r@.users =~= Seq::<UserDataView>::empty());
        r
    }

    /// Whether the transaction's nonce was already spent.
    pub fn contains(&self, transaction: &Transaction) -> (r: bool)
        ensures
            r == self@.nonces.contains(transaction.content.nonce),
    {
        has_nonce(&self.nonces_transaction, transaction.content.nonce)
    }

    pub fn find_user_data(&self, public_user: PublicUser) -> (r: Option<usize>)
        ensures
            opt_index(r) == find_user(self@.users, public_user@),
            r matches Some(i) ==> i < self.users@.len(),
    {
        find_in(&self.users, &public_user)
    }

    /// The position of the account, appended with a zero balance where it is new.
    pub fn find_or_create_user_data(&mut self, public_user: PublicUser) -> (r: usize)
        ensures
            final(self)@.nonces == old(self)@.nonces,
            match find_user(old(self)@.users, public_user@) {
                Some(i) => r == i && final(self)@.users == old(self)@.users,
                None => r == old(self)@.users.len() && final(self)@.users == old(self)@.users.push(
                    UserDataView { user: public_user@, money: Num { value: 0 } },
                ),
            },
    {
        match find_in(&self.users, &public_user) {
            Some(i) => i,
            None => {
                self.users.push(UserData::new(public_user));
                assert(self@.users =~= old(self)@.users.push(
                    UserDataView { user: public_user@, money: Num { value: 0 } },
                ));
                self.users.len() - 1
            },
        }
    }

    pub fn to_bytes(&self) -> (r: Vec<u8>)
        ensures
            r@ == Self::encode(self@),
    {
        let mut bytes: Vec<u8> = Vec::new();
        self.to_writer(&mut bytes);
        assert(bytes@ =~= Self::encode(self@));
        bytes
    }

    pub fn from_bytes(bytes: &Vec<u8>) -> (r: Result<Ledger, Error>)
        ensures
            match Self::parse(bytes@) {
                Some((v, _)) => r matches Ok(l) && l@ == v,
                None => r matches Err(e) && crate::reader::codec_error(e),
            },
    {
        let mut reader = Reader::new(bytes.clone());
        Self::from_reader(&mut reader)
    }
}

impl Ledger {
    /// Replays the branch `chain` of `blocks` from an empty ledger, block by block, each
    /// payload applied on the ledger before it. A block whose payload fails is left out whole;
    /// on a prefix of a well-formed branch, the only use the tree makes of it, every payload
    /// applies, so no transaction is ever left out.
    pub fn new_unsafe(chain: &Vec<u32>, blocks: &Vec<Block>) -> (r: Ledger)
        requires
            in_pool(views(blocks@), chain@),
        ensures
            r@ == replay(views(blocks@), chain@),
    {
        let ghost vb = views(blocks@);
        let mut ledger = Ledger::empty();
        let mut k: usize = 0;
        while k < chain.len()
            invariant
                k <= chain@.len(),
                vb == views(blocks@),
                in_pool(vb, chain@),
                ledger@ == replay(vb, chain@.take(k as int)),
            decreases chain@.len() - k,
        {
            let block = &blocks[chain[k] as usize];
            proof {
                let t = chain@.take(k + 1);
                assert(t.drop_last() =~= chain@.take(k as int));
                assert(t.last() == chain@[k as int]);
                assert(chain@[k as int] < vb.len());
                assert(vb[chain@[k as int] as int] == block@);
            }
            match block.verify_payload(&ledger) {
                Ok(l) => {
                    ledger = l;
                },
                Err(_) => {},
            }
            k = k + 1;
        }
        assert(chain@.take(k as int) =~= chain@);
        ledger
    }

    /// A copy of the ledger.
    pub fn duplicate(&self) -> (r: Ledger)
        ensures
            r@ == self@,
    {
        Ledger {
            users: copy_vec(&self.users),
            nonces_transaction: copy_vec(&self.nonces_transaction),
        }
    }
}

impl PartialLedger {
    pub fn empty() -> (r: PartialLedger)
        ensures
            r@ == empty_ledger(),
    {
        let r = PartialLedger { users: Vec::new(), nonces_transaction: Vec::new() };
        assert(r@.users =~= Seq::<UserDataView>::empty());
        r
    }

    /// Whether the transaction's nonce is spent here or in the parent ledger.
    pub fn contains(&self, ledger: &Ledger, transaction: &Transaction) -> (r: bool)
        ensures
            r == (self@.nonces.contains(transaction.content.nonce) || ledger@.nonces.contains(
                transaction.content.nonce,
            )),
    {
        has_nonce(&self.nonces_transaction, transaction.content.nonce) || ledger.contains(
            transaction,
        )
    }

    /// The position of the account here, copying it from the parent ledger where only the
    /// parent holds it.
    pub fn find_user_data(&mut self, ledger: &Ledger, public_user: PublicUser) -> (r: Option<
        usize,
    >)
        ensures
            final(self)@.nonces == old(self)@.nonces,
            match find_user(old(self)@.users, public_user@) {
                Some(i) => opt_index(r) == Some(i) && final(self)@.users == old(self)@.users,
                None => match find_user(ledger@.users, public_user@) {
                    Some(j) => opt_index(r) == Some(old(self)@.users.len() as int) && final(self)@.users
                        == old(self)@.users.push(ledger@.users[j]),
                    None => r is None && final(self)@.users == old(self)@.users,
                },
            },
    {
        match find_in(&self.users, &public_user) {
            Some(i) => Some(i),
            None => match find_in(&ledger.users, &public_user) {
                Some(j) => {
                    self.users.push(ledger.users[j]);
                    assert(self@.users =~= old(self)@.users.push(ledger@.users[j as int]));
                    Some(self.users.len() - 1)
                },
                None => None,
            },
        }
    }

    /// As `find_user_data`, with a zero balance for an account that neither ledger holds.
    pub fn find_or_create_user_data(&mut self, ledger: &Ledger, public_user: PublicUser) -> (r:
        usize)
        ensures
            final(self)@.nonces == old(self)@.nonces,
            match find_user(old(self)@.users, public_user@) {
                Some(i) => r == i && final(self)@.users == old(self)@.users,
                None => r == old(self)@.users.len() && final(self)@.users == old(self)@.users.push(
                    match find_user(ledger@.users, public_user@) {
                        Some(j) => ledger@.users[j],
                        None => UserDataView { user: public_user@, money: Num { value: 0 } },
                    },
                ),
            },
    {
        let ghost found = find_user(ledger@.users, public_user@);
        match self.find_user_data(ledger, public_user) {
            Some(i) => i,
            None => {
                assert(found is None);
                self.users.push(UserData::new(public_user));
                assert(self@.users =~= old(self)@.users.push(
                    UserDataView { user: public_user@, money: Num { value: 0 } },
                ));
                self.users.len() - 1
            },
        }
    }

    /// Applies one transaction; on an error nothing changes.
    pub fn apply_transaction(&mut self, ledger: &Ledger, transaction: &Transaction) -> (r: Result<
        (),
        Error,
    >)
        ensures
            match apply_outcome(ledger@, old(self)@, transaction@) {
                Ok(l) => r is Ok && final(self)@ == l,
                Err(e) => r == Err::<(), Error>(e) && final(self)@ == old(self)@,
            },
    {
        let ghost p = self@;
        let tx = transaction;
        if self.contains(ledger, tx) {
            return Err(Error::TransactionWasAlreadyDone);
        }
        let value = tx.content.value;
        let from = tx.content.from;
        let to = tx.content.to;
        let coinbase = from.is_coinbase();
        let mut debited: Num = Num::zero();
        if !coinbase {
            let balance = match balance_of(ledger, &self.users, &from) {
                Some(b) => b,
                None => return Err(Error::TryingToSendMoneyFromUnknowUser),
            };
            match tx.verify(balance) {
                Ok(_) => {},
                Err(e) => return Err(e),
            }
            debited = balance.sub(&value);
        }
        let same = !coinbase && to.same(&from);
        if !same {
            let before = match balance_of(ledger, &self.users, &to) {
                Some(b) => b,
                None => Num::zero(),
            };
            if before.checked_add(&value).is_none() {
                proof {
                    if !coinbase {
                        lemma_set_money_find(p.users, from@, debited, to@);
                    }
                }
                return Err(Error::AmountOverflow);
            }
        }
        if !coinbase {
            store_money(&mut self.users, &from, debited);
        }
        proof {
            if !coinbase {
                lemma_set_money_find(p.users, from@, debited, to@);
            }
        }
        let before = match balance_of(ledger, &self.users, &to) {
            Some(b) => b,
            None => Num::zero(),
        };
        // The sum was checked before anything changed; this arm is never taken.
        let credited = match before.checked_add(&value) {
            Some(c) => c,
            None => {
                return Err(Error::AmountOverflow);
            },
        };
        self.nonces_transaction.push(tx.content.nonce);
        store_money(&mut self.users, &to, credited);
        Ok(())
    }

    /// The ledger this partial ledger stands for over its parent.
    pub fn to_ledger(&self, ledger: &Ledger) -> (r: Ledger)
        ensures
            r@ == merged(self@, ledger@),
    {
        let mut nonces = copy_vec(&self.nonces_transaction);
        let mut i: usize = 0;
        while i < ledger.nonces_transaction.len()
            invariant
                i <= ledger@.nonces.len(),
                nonces@ == add_missing_nonces(self@.nonces, ledger@.nonces.take(i as int)),
            decreases ledger@.nonces.len() - i,
        {
            let n = ledger.nonces_transaction[i];
            proof {
                assert(ledger@.nonces.take(i + 1).drop_last() =~= ledger@.nonces.take(i as int));
                assert(ledger@.nonces.take(i + 1).last() == n);
            }
            if !has_nonce(&nonces, n) {
                nonces.push(n);
            }
            i = i + 1;
        }
        let mut users = copy_vec(&self.users);
        let mut k: usize = 0;
        while k < ledger.users.len()
            invariant
                k <= ledger@.users.len(),
                views(users@) == add_missing_users(self@.users, ledger@.users.take(k as int)),
            decreases ledger@.users.len() - k,
        {
            let d = ledger.users[k];
            proof {
                assert(ledger@.users.take(k + 1).drop_last() =~= ledger@.users.take(k as int));
                assert(ledger@.users.take(k + 1).last() == d@);
            }
            if find_in(&users, &d.user).is_none() {
                proof {
                    assert(views(users@.push(d)) =~= views(users@).push(d@));
                }
                users.push(d);
            }
            k = k + 1;
        }
        proof {
            assert(ledger@.nonces.take(i as int) =~= ledger@.nonces);
            assert(ledger@.users.take(k as int) =~= ledger@.users);
        }
        Ledger { users, nonces_transaction: nonces }
    }
}

impl Writable for UserData {
    open spec fn encode(v: UserDataView) -> Seq<u8> {
        v.user + Num::encode(v.money)
    }

    fn to_writer(&self, writer: &mut Vec<u8>) {
        self.user.to_writer(writer);
        self.money.to_writer(writer);
        assert(writer@ =~= old(writer)@ + Self::encode(self@));
    }
}

impl Readable for UserData {
    open spec fn parse(s: Seq<u8>) -> Option<(UserDataView, Seq<u8>)> {
        match PublicUser::parse(s) {
            Some((user, r1)) => match Num::parse(r1) {
                Some((money, r2)) => Some((UserDataView { user, money }, r2)),
                None => None,
            },
            None => None,
        }
    }

    open spec fn fits(v: UserDataView) -> bool {
        v.user.len() == 32
    }

    fn from_reader(reader: &mut Reader) -> (r: Result<UserData, Error>) {
        let user = match PublicUser::from_reader(reader) {
            Ok(u) => u,
            Err(_) => return Err(Error::InvalidFormat),
        };
        let money = match Num::from_reader(reader) {
            Ok(m) => m,
            Err(_) => return Err(Error::InvalidFormat),
        };
        Ok(UserData { user, money })
    }

    proof fn lemma_round_trip(v: UserDataView, rest: Seq<u8>) {
        let r1 = Num::encode(v.money) + rest;
        Num::lemma_round_trip(v.money, rest);
        PublicUser::lemma_round_trip(v.user, r1);
        assert(Self::encode(v) + rest =~= v.user + r1);
    }
}

impl Writable for Ledger {
    open spec fn encode(v: LedgerView) -> Seq<u8> {
        encode_vec::<u64>(v.nonces) + encode_vec::<UserData>(v.users)
    }

    fn to_writer(&self, writer: &mut Vec<u8>) {
        write_vec_u64(writer, &self.nonces_transaction);
        write_vec_struct(writer, &self.users);
        proof {
            assert(views(self.nonces_transaction@) =~= self.nonces_transaction@);
        }
        assert(writer@ =~= old(writer)@ + Self::encode(self@));
    }
}

impl Readable for Ledger {
    open spec fn parse(s: Seq<u8>) -> Option<(LedgerView, Seq<u8>)> {
        match parse_vec::<u64>(s) {
            Some((nonces, r1)) => match parse_vec::<UserData>(r1) {
                Some((users, r2)) => Some((LedgerView { users, nonces }, r2)),
                None => None,
            },
            None => None,
        }
    }

    open spec fn fits(v: LedgerView) -> bool {
        crate::reader::all_fit::<u64>(v.nonces) && crate::reader::all_fit::<UserData>(v.users)
    }

    fn from_reader(reader: &mut Reader) -> (r: Result<Ledger, Error>) {
        let mut nonces: Vec<u64> = Vec::new();
        if read_vec_u64(reader, &mut nonces).is_err() {
            return Err(Error::InvalidFormat);
        }
        let mut users: Vec<UserData> = Vec::new();
        if read_vec_struct(reader, &mut users).is_err() {
            return Err(Error::InvalidFormat);
        }
        proof {
            assert(views(nonces@) =~= nonces@);
        }
        Ok(Ledger { users, nonces_transaction: nonces })
    }

    proof fn lemma_round_trip(v: LedgerView, rest: Seq<u8>) {
        let r1 = encode_vec::<UserData>(v.users) + rest;
        lemma_vec_round_trip::<UserData>(v.users, rest);
        lemma_vec_round_trip::<u64>(v.nonces, r1);
        crate::writer::lemma_concat2(
            encode_vec::<u64>(v.nonces),
            encode_vec::<UserData>(v.users),
            rest,
        );
    }
}

} // verus!

verus! {

/// Whether two vectors of `u64`s are equal, item by item.
pub(crate) fn same_u64s(a: &Vec<u64>, b: &Vec<u64>) -> (r: bool)
    ensures
        r == (a@ == b@),
{
    if a.len() != b.len() {
        return false;
    }
    let mut i: usize = 0;
    while i < a.len()
        invariant
            i <= a@.len(),
            a@.len() == b@.len(),
            forall|j: int| 0 <= j < i ==> a@[j] == b@[j],
        decreases a@.len() - i,
    {
        if a[i] != b[i] {
            return false;
        }
        i = i + 1;
    }
    assert(a@ =~= b@);
    true
}

/// Whether two vectors of `u32`s are equal, item by item.
pub(crate) fn same_u32s(a: &Vec<u32>, b: &Vec<u32>) -> (r: bool)
    ensures
        r == (a@ == b@),
{
    if a.len() != b.len() {
        return false;
    }
    let mut i: usize = 0;
    while i < a.len()
        invariant
            i <= a@.len(),
            a@.len() == b@.len(),
            forall|j: int| 0 <= j < i ==> a@[j] == b@[j],
        decreases a@.len() - i,
    {
        if a[i] != b[i] {
            return false;
        }
        i = i + 1;
    }
    assert(a@ =~= b@);
    true
}

/// Whether two vectors of balances are equal, item by item.
fn same_users(a: &Vec<UserData>, b: &Vec<UserData>) -> (r: bool)
    ensures
        r == (views(a@) == views(b@)),
{
    if a.len() != b.len() {
        assert(views(a@).len() != views(b@).len());
        return false;
    }
    let mut i: usize = 0;
    while i < a.len()
        invariant
            i <= a@.len(),
            a@.len() == b@.len(),
            forall|j: int| 0 <= j < i ==> a@[j]@ == b@[j]@,
        decreases a@.len() - i,
    {
        if !(a[i].user.same(&b[i].user) && a[i].money == b[i].money) {
            assert(views(a@)[i as int] != views(b@)[i as int]);
            return false;
        }
        i = i + 1;
    }
    assert(views(a@) =~= views(b@));
    true
}

impl PartialEq for UserData {
    fn eq(&self, other: &UserData) -> (r: bool) {
        self.user.same(&other.user) && self.money == other.money
    }
}

impl Eq for UserData {}

impl vstd::std_specs::cmp::PartialEqSpecImpl for UserData {
    open spec fn obeys_eq_spec() -> bool {
        true
    }

    open spec fn eq_spec(&self, other: &UserData) -> bool {
        self@ == other@
    }
}

impl PartialEq for Ledger {
    fn eq(&self, other: &Ledger) -> (r: bool) {
        same_users(&self.users, &other.users) && same_u64s(
            &self.nonces_transaction,
            &other.nonces_transaction,
        )
    }
}

impl Eq for Ledger {}

impl vstd::std_specs::cmp::PartialEqSpecImpl for Ledger {
    open spec fn obeys_eq_spec() -> bool {
        true
    }

    open spec fn eq_spec(&self, other: &Ledger) -> bool {
        self@ == other@
    }
}

} // verus!
