use vstd::prelude::*;

use crate::state::Item;

verus! {

/// The message that sets the contract up.
#[derive(Debug, Clone, PartialEq, Eq)]
pub struct InitMsg {
    /// Address of the NFT contract whose tokens the pool holds.
    pub address: String,
    /// Code hash of that NFT contract.
    pub code_hash: String,
}

/// The transactions the contract handles.
#[derive(Debug, Clone, PartialEq, Eq)]
pub enum HandleMsg {
    /// Adds `ammount` (which may be negative) to the sender's funds.
    AddFunds { ammount: i32 },
    /// The NFT contract reports tokens sent to this contract.
    BatchReceiveNft {
        /// address that sent the NFTs
        sender: String,
        /// previous owner of the NFTs
        from: String,
        /// list of NFTs sent from the previous owner
        token_ids: Vec<String>,
        /// msg specified when sending
        msg: Option<Vec<u8>>,
    },
    /// Buys into the loot pool and wins one of its items.
    StartLootPool {},
}

/// The queries the contract answers.
#[derive(Debug, Clone, PartialEq, Eq)]
pub enum QueryMsg {
    GetSettings {},
    QueryAccount { adress: String },
    QueryPool {},
}

/// The settings and pool of the contract.
#[derive(Debug, Clone, PartialEq, Eq)]
pub struct IniDataResponse {
    pub nft: String,
    pub code_hash: String,
    pub admin: String,
    pub items: Vec<Item>,
}

/// The pool and its buy-in price.
#[derive(Debug, Clone, PartialEq, Eq)]
pub struct LootPoolResponse {
    pub buyin: i32,
    pub items: Vec<Item>,
}

/// The funds of an account.
#[derive(Debug, Clone, PartialEq, Eq)]
pub struct QueryAccountResponse {
    pub adress: String,
    pub funds: i32,
}

/// The data a loot pool round answers with.
#[derive(Debug, Clone, PartialEq, Eq)]
pub enum HandleAnswer {
    WonItem { item: Item },
}

/// The answer to a query.
#[derive(Debug, Clone, PartialEq, Eq)]
pub enum QueryAnswer {
    Settings(IniDataResponse),
    Account(QueryAccountResponse),
    Pool(LootPoolResponse),
}

/// What the environment tells the contract about a call.
#[derive(Debug, Clone, PartialEq, Eq)]
pub struct Env {
    /// The address that sent the message.
    pub sender: String,
    /// The code hash of this contract.
    pub contract_code_hash: String,
}

/// A message that the contract sends to the NFT contract.
#[derive(Debug, Clone, PartialEq, Eq)]
pub enum OutgoingMsg {
    /// Registers this contract to be told of tokens it receives.
    RegisterReceiveNft {
        code_hash: String,
        also_implements_batch_receive_nft: Option<bool>,
        padding: Option<String>,
        block_size: usize,
        callback_code_hash: String,
        contract_addr: String,
    },
    /// Transfers a token to `recipient`.
    TransferNft {
        recipient: String,
        token_id: String,
        memo: Option<String>,
        padding: Option<String>,
        block_size: usize,
        callback_code_hash: String,
        contract_addr: String,
    },
}

/// The answer to the setup message.
#[derive(Debug, Clone, PartialEq, Eq)]
pub struct InitResponse {
    pub messages: Vec<OutgoingMsg>,
}

/// The answer to a transaction.
#[derive(Debug, Clone, PartialEq, Eq)]
pub struct HandleResponse {
    pub messages: Vec<OutgoingMsg>,
    pub data: Option<HandleAnswer>,
}

/// The block size that messages to the NFT contract are padded to.
pub const BLOCK_SIZE: usize = 256;

impl HandleResponse {
    /// A response with no messages and no data.
    pub fn empty() -> (r: HandleResponse)
        ensures
            r.messages@.len() == 0,
            r.data is None,
    {
        HandleResponse { messages: Vec::new(), data: None }
    }
}

} // verus!
