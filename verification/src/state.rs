use vstd::prelude::*;
use vstd::utf8::encode_utf8;

verus! {

/// An NFT held in the loot pool, with the value that its deposit credited.
#[allow(non_snake_case)]
#[derive(Debug, Clone, PartialEq, Eq)]
pub struct Item {
    pub name: String,
    pub tradeReady: String,
    pub value: i32,
    pub tokenid: String,
}

/// An account: the funds a user holds in the contract.
#[derive(Debug, Clone, Copy, PartialEq, Eq)]
pub struct User {
    pub currency: i32,
}

/// The contract's configuration and its loot pool.
#[derive(Debug, Clone, PartialEq, Eq)]
pub struct State {
    pub admin: String,
    pub code_hash: String,
    pub nft: String,
    pub items: Vec<Item>,
}

/// A stored account record: the address it is kept under and its contents.
#[derive(Debug, Clone, PartialEq, Eq)]
pub struct Account {
    pub address: String,
    pub user: User,
}

/// The contract's storage: one keyspace holding the configuration record (under
/// `config_key()`) and the account records (under their addresses).
///
/// `config` is the configuration record while one is stored. Account records are
/// kept in a vector; when an address occurs more than once, the last record for it
/// is the one that counts (see `accounts_map`). While `config` is present it is
/// the record at `config_key()`, whatever account records name that key; writing
/// an account to that key replaces it (see `save_user` and `balances`).
#[derive(Debug, Clone, PartialEq, Eq)]
pub struct Store {
    pub config: Option<State>,
    pub accounts: Vec<Account>,
}

/// Errors of the contract's operations.
#[derive(Debug, Clone, Copy, PartialEq, Eq)]
pub enum ContractError {
    /// The configuration record has not been written yet.
    NotFound,
    /// The record read cannot be decoded as what was asked for.
    ParseError,
    /// A balance would become negative.
    Unauthorized,
}

/// The balances that a sequence of account records stands for (later records win).
pub open spec fn accounts_map(a: Seq<Account>) -> Map<Seq<char>, i32>
    decreases a.len(),
{
    if a.len() == 0 {
        Map::empty()
    } else {
        accounts_map(a.drop_last()).insert(a.last().address@, a.last().user.currency)
    }
}

/// `j` is the last position of a record for `addr` in `a`.
pub open spec fn last_record_of(a: Seq<Account>, addr: Seq<char>, j: int) -> bool {
    &&& 0 <= j < a.len()
    &&& a[j].address@ == addr
    &&& forall|k: int| j < k < a.len() ==> #[trigger] a[k].address@ != addr
}

/// The balance of `addr` in `bal`, zero where no account exists.
pub open spec fn balance_or_zero(bal: Map<Seq<char>, i32>, addr: Seq<char>) -> int {
    if bal.contains_key(addr) {
        bal[addr] as int
    } else {
        0
    }
}

/// Every balance in `bal` is non-negative.
pub open spec fn all_nonneg(bal: Map<Seq<char>, i32>) -> bool {
    forall|a: Seq<char>| #[trigger] bal.contains_key(a) ==> bal[a] >= 0
}

/// The values of a sequence of items, in order.
pub open spec fn item_values(items: Seq<Item>) -> Seq<i32> {
    items.map_values(|it: Item| it.value)
}

proof fn lemma_lookup_last(a: Seq<Account>, addr: Seq<char>, j: int)
    requires
        last_record_of(a, addr, j),
    ensures
        accounts_map(a).contains_key(addr),
        accounts_map(a)[addr] == a[j].user.currency,
    decreases a.len(),
{
    if j < a.len() - 1 {
        let b = a.drop_last();
        assert(last_record_of(b, addr, j)) by {
            assert forall|k: int| j < k < b.len() implies #[trigger] b[k].address@ != addr by {
                assert(a[k].address@ != addr);
            }
        }
        lemma_lookup_last(b, addr, j);
        assert(a.last().address@ != addr) by {
            assert(a[a.len() - 1].address@ != addr);
        }
    }
}

proof fn lemma_lookup_absent(a: Seq<Account>, addr: Seq<char>)
    requires
        forall|k: int| 0 <= k < a.len() ==> #[trigger] a[k].address@ != addr,
    ensures
        !accounts_map(a).contains_key(addr),
    decreases a.len(),
{
    if a.len() > 0 {
        let b = a.drop_last();
        assert forall|k: int| 0 <= k < b.len() implies #[trigger] b[k].address@ != addr by {
            assert(a[k].address@ != addr);
        }
        lemma_lookup_absent(b, addr);
        assert(a[a.len() - 1].address@ != addr);
    }
}

proof fn lemma_update_last(a: Seq<Account>, addr: Seq<char>, j: int, rec: Account)
    requires
        last_record_of(a, addr, j),
        rec.address@ == addr,
    ensures
        accounts_map(a.update(j, rec)) == accounts_map(a).insert(addr, rec.user.currency),
    decreases a.len(),
{
    let u = a.update(j, rec);
    if j == a.len() - 1 {
        assert(u.drop_last() =~= a.drop_last());
        assert(accounts_map(u) =~= accounts_map(a).insert(addr, rec.user.currency));
    } else {
        let b = a.drop_last();
        assert(last_record_of(b, addr, j)) by {
            assert forall|k: int| j < k < b.len() implies #[trigger] b[k].address@ != addr by {
                assert(a[k].address@ != addr);
            }
        }
        lemma_update_last(b, addr, j, rec);
        assert(u.drop_last() =~= b.update(j, rec));
        assert(a[a.len() - 1].address@ != addr);
        assert(u.last() == a.last());
        assert(accounts_map(u) =~= accounts_map(a).insert(addr, rec.user.currency));
    }
}

impl Item {
    /// A copy of this item.
    pub fn duplicate(&self) -> (r: Item)
        ensures
            r == *self,
    {
        Item {
            name: self.name.clone(),
            tradeReady: self.tradeReady.clone(),
            value: self.value,
            tokenid: self.tokenid.clone(),
        }
    }
}

/// A copy of a vector of items.
pub fn clone_items(items: &Vec<Item>) -> (r: Vec<Item>)
    ensures
        r@ == items@,
{
    let mut r: Vec<Item> = Vec::new();
    let mut i: usize = 0;
    while i < items.len()
        invariant
            i <= items.len(),
            r@ == items@.subrange(0, i as int),
        decreases items.len() - i,
    {
        r.push(items[i].duplicate());
        i = i + 1;
    }
    assert(r@ =~= items@);
    r
}

impl Account {
    /// A copy of this record.
    pub fn duplicate(&self) -> (r: Account)
        ensures
            r == *self,
    {
        Account { address: self.address.clone(), user: self.user }
    }
}

impl State {
    /// A copy of this state.
    pub fn duplicate(&self) -> (r: State)
        ensures
            r.admin == self.admin,
            r.code_hash == self.code_hash,
            r.nft == self.nft,
            r.items@ == self.items@,
    {
        State {
            admin: self.admin.clone(),
            code_hash: self.code_hash.clone(),
            nft: self.nft.clone(),
            items: clone_items(&self.items),
        }
    }
}

/// The key the configuration record is stored under. Account records share the
/// keyspace: they are stored under their address.
pub open spec fn config_key() -> Seq<char> {
    seq!['c', 'o', 'n', 'f', 'i', 'g']
}

/// The funds that an account read finds when the key holds the configuration
/// record. A stored configuration starts with the byte length of `admin` as a
/// little-endian `u64`; an account record is a little-endian `i32` and its
/// decoding ignores trailing bytes, so the read gives the low 32 bits of that
/// length, as an `i32`.
pub open spec fn state_as_user(st: State) -> i32 {
    ((encode_utf8(st.admin@).len() as usize) as u32) as i32
}

/// The funds an account read finds at the configuration's key (`state_as_user`).
pub fn state_as_user_value(st: &State) -> (r: i32)
    ensures
        r == state_as_user(*st),
{
    let n: usize = st.admin.as_str().len();
    let low: u32 = #[verifier::truncate] (n as u32);
    #[verifier::truncate] (low as i32)
}

/// What reading the configuration record gives: the state where one is stored;
/// `ParseError` where an account record took its key; `NotFound` otherwise.
pub open spec fn load_state(store: Store) -> Result<State, ContractError> {
    match store.config {
        Some(st) => Ok(st),
        None => if store.balances().contains_key(config_key()) {
            Err(ContractError::ParseError)
        } else {
            Err(ContractError::NotFound)
        },
    }
}

/// The key of the configuration record.
pub fn config_key_string() -> (s: String)
    ensures
        s@ == config_key(),
{
    let k = "config";
    proof {
        reveal_strlit("config");
    }
    let s = k.to_owned();
    assert(s@ =~= config_key());
    s
}

/// Whether `addr` is the key of the configuration record.
pub fn is_config_key(addr: &String) -> (r: bool)
    ensures
        r == (addr@ == config_key()),
{
    let k = config_key_string();
    *addr == k
}

impl Store {
    /// A store without configuration whose account reads give the same as this
    /// one's.
    pub fn accounts_copy(&self) -> (r: Store)
        ensures
            r.config is None,
            r.balances() == self.balances(),
    {
        let mut accounts: Vec<Account> = Vec::new();
        let mut i: usize = 0;
        while i < self.accounts.len()
            invariant
                i <= self.accounts@.len(),
                accounts@ == self.accounts@.subrange(0, i as int),
            decreases self.accounts@.len() - i,
        {
            accounts.push(self.accounts[i].duplicate());
            i = i + 1;
        }
        assert(accounts@ =~= self.accounts@);
        match &self.config {
            Some(st) => {
                let rec = Account {
                    address: config_key_string(),
                    user: User { currency: state_as_user_value(st) },
                };
                let ghost before = accounts@;
                accounts.push(rec);
                assert(accounts@.drop_last() =~= before);
            },
            None => {},
        }
        let r = Store { config: None, accounts };
        assert(r.balances() =~= self.balances());
        r
    }

    /// What reading an account at each key gives. Account records and the
    /// configuration record share one keyspace: a key holds the last record
    /// written to it, and an account read at the configuration's key decodes
    /// the configuration record (`state_as_user`).
    pub open spec fn balances(&self) -> Map<Seq<char>, i32> {
        match self.config {
            Some(st) => accounts_map(self.accounts@).insert(config_key(), state_as_user(st)),
            None => accounts_map(self.accounts@),
        }
    }

    /// An empty store: no configuration and no accounts.
    pub fn new() -> (s: Store)
        ensures
            s.config is None,
            s.balances() == Map::<Seq<char>, i32>::empty(),
    {
        Store { config: None, accounts: Vec::new() }
    }

    /// Position of the record that holds the balance of `addr`, if any.
    fn find_account(&self, addr: &String) -> (r: Option<usize>)
        ensures
            r matches Some(j) ==> last_record_of(self.accounts@, addr@, j as int),
            r is None ==> forall|k: int|
                0 <= k < self.accounts@.len() ==> #[trigger] self.accounts@[k].address@ != addr@,
    {
        let mut i: usize = self.accounts.len();
        while i > 0
            invariant
                i <= self.accounts@.len(),
                forall|k: int|
                    i <= k < self.accounts@.len() ==> #[trigger] self.accounts@[k].address@
                        != addr@,
            decreases i,
        {
            let j = i - 1;
            if self.accounts[j].address == *addr {
                return Some(j);
            }
            i = j;
        }
        None
    }

    /// The account read at `addr`, if the key holds a record.
    pub fn may_load_user(&self, addr: &String) -> (r: Option<User>)
        ensures
            r matches Some(u) ==> self.balances().contains_key(addr@) && u.currency
                == self.balances()[addr@],
            r is None ==> !self.balances().contains_key(addr@),
    {
        if is_config_key(addr) {
            match &self.config {
                Some(st) => {
                    return Some(User { currency: state_as_user_value(st) });
                },
                None => {},
            }
        }
        match self.find_account(addr) {
            Some(j) => {
                proof {
                    lemma_lookup_last(self.accounts@, addr@, j as int);
                }
                Some(self.accounts[j].user)
            },
            None => {
                proof {
                    lemma_lookup_absent(self.accounts@, addr@);
                }
                None
            },
        }
    }

    /// The balance of `addr`, zero where no record is stored.
    pub fn balance_of(&self, addr: &String) -> (r: i32)
        ensures
            r == balance_or_zero(self.balances(), addr@),
    {
        match self.may_load_user(addr) {
            Some(u) => u.currency,
            None => 0,
        }
    }

    /// Writes the configuration record.
    pub fn save_state(&mut self, st: State)
        ensures
            final(self).config == Some(st),
            final(self).balances() == old(self).balances().insert(config_key(), state_as_user(st)),
    {
        self.config = Some(st);
        assert(self.balances() =~= old(self).balances().insert(config_key(), state_as_user(st)));
    }

    /// Writes the account `user` under `addr`; at the configuration's key this
    /// replaces the configuration record.
    pub fn save_user(&mut self, addr: String, user: User)
        ensures
            final(self).balances() == old(self).balances().insert(addr@, user.currency),
            final(self).config == (if addr@ == config_key() {
                None
            } else {
                old(self).config
            }),
    {
        if is_config_key(&addr) {
            self.config = None;
        }
        let ghost mid = *self;
        match self.find_account(&addr) {
            Some(j) => {
                let rec = Account { address: addr, user };
                proof {
                    lemma_update_last(self.accounts@, rec.address@, j as int, rec);
                }
                self.accounts.set(j, rec);
            },
            None => {
                let rec = Account { address: addr, user };
                let ghost before = self.accounts@;
                self.accounts.push(rec);
                assert(self.accounts@.drop_last() =~= before);
            },
        }
        assert(self.balances() =~= old(self).balances().insert(addr@, user.currency));
    }
}

} // verus!
