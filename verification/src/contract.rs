use vstd::prelude::*;

use crate::controller::{
    apply_credit, buyin_price, buyin_price_of_items, change_currency, creat_item_from_metadata,
    config_after_write, credit_fits, credit_in_range, credited, is_metadata_readable, item_from_metadata,
    metadata_owner, metadata_readable, metadata_value, Metadata,
};
use crate::draw::{loot_draw, loot_draw_value};
use crate::msg::{
    Env, HandleAnswer, HandleMsg, HandleResponse, IniDataResponse, InitMsg, InitResponse,
    LootPoolResponse, OutgoingMsg, QueryAccountResponse, QueryAnswer, QueryMsg, BLOCK_SIZE,
};
use crate::parse::parse_description;
use crate::state::{
    balance_or_zero, clone_items, config_key, config_key_string, item_values, load_state,
    state_as_user, ContractError, State, Store, User,
};

verus! {

/// The error of reading the configuration record where none is stored:
/// `ParseError` where an account record took its key, `NotFound` otherwise.
pub fn state_load_error(store: &Store) -> (e: ContractError)
    requires
        store.config is None,
    ensures
        load_state(*store) == Err::<State, ContractError>(e),
{
    let key = config_key_string();
    if store.may_load_user(&key).is_some() {
        ContractError::ParseError
    } else {
        ContractError::NotFound
    }
}

/* Setup */

/// `st` is the state that setting the contract up with `msg`, sent by `env.sender`, writes.
pub open spec fn initial_state(st: State, env: Env, msg: InitMsg) -> bool {
    &&& st.admin == env.sender
    &&& st.code_hash == msg.code_hash
    &&& st.nft == msg.address
    &&& st.items@.len() == 0
}

/// Sets the contract up: writes its configuration with an empty pool, and asks the
/// NFT contract to report the tokens sent to this contract.
pub fn init(store: &mut Store, env: Env, msg: InitMsg) -> (r: InitResponse)
    ensures
        final(store).config matches Some(st) && initial_state(st, env, msg)
            && final(store).balances() == old(store).balances().insert(
            config_key(),
            state_as_user(st),
        ),
        r.messages@ == seq![
            (OutgoingMsg::RegisterReceiveNft {
                code_hash: env.contract_code_hash,
                also_implements_batch_receive_nft: Some(true),
                padding: None,
                block_size: BLOCK_SIZE,
                callback_code_hash: msg.code_hash,
                contract_addr: msg.address,
            }),
        ],
{
    let state = State {
        admin: env.sender,
        code_hash: msg.code_hash,
        nft: msg.address,
        items: Vec::new(),
    };
    let register = OutgoingMsg::RegisterReceiveNft {
        code_hash: env.contract_code_hash,
        also_implements_batch_receive_nft: Some(true),
        padding: None,
        block_size: BLOCK_SIZE,
        callback_code_hash: state.code_hash.clone(),
        contract_addr: state.nft.clone(),
    };
    store.save_state(state);
    let mut messages: Vec<OutgoingMsg> = Vec::new();
    messages.push(register);
    InitResponse { messages }
}

/* Funds */

/// What adding `amount` to the funds of `sender` does: the credit is applied (and
/// written) when it leaves the funds non-negative and answered with an empty
/// response, and refused with `Unauthorized` otherwise.
pub open spec fn add_funds_post(
    old: Store,
    new: Store,
    sender: Seq<char>,
    amount: int,
    r: Result<HandleResponse, ContractError>,
) -> bool {
    &&& new.config == config_after_write(
        old.config,
        sender,
        credited(old.balances(), sender, amount) >= 0,
    )
    &&& new.balances() == apply_credit(old.balances(), sender, amount)
    &&& (r is Ok <==> credited(old.balances(), sender, amount) >= 0)
    &&& (r matches Ok(resp) ==> resp.messages@.len() == 0 && resp.data is None)
    &&& (r matches Err(e) ==> e == ContractError::Unauthorized)
}

/// Adds `ammount` (which may be negative) to the funds of the sender.
pub fn change_funds(store: &mut Store, env: Env, ammount: i32) -> (r: Result<
    HandleResponse,
    ContractError,
>)
    requires
        credit_in_range(old(store).balances(), env.sender@, ammount as int),
    ensures
        add_funds_post(*old(store), *final(store), env.sender@, ammount as int, r),
{
    match change_currency(store, env.sender, ammount) {
        Ok(()) => Ok(HandleResponse::empty()),
        Err(e) => Err(e),
    }
}

/* Receiving NFTs */

/// The credits that receiving tokens with metadata `metas` makes: each token's
/// value, to the owner its description names.
pub open spec fn receive_credits(metas: Seq<Metadata>) -> Seq<(Seq<char>, int)> {
    Seq::new(metas.len(), |i: int| (metadata_owner(metas[i]), metadata_value(metas[i]) as int))
}

/// The balances after the credits `cs`, applied in order.
pub open spec fn apply_credits(bal: Map<Seq<char>, i32>, cs: Seq<(Seq<char>, int)>) -> Map<
    Seq<char>,
    i32,
>
    decreases cs.len(),
{
    if cs.len() == 0 {
        bal
    } else {
        apply_credit(apply_credits(bal, cs.drop_last()), cs.last().0, cs.last().1)
    }
}

/// None of the credits `cs`, applied in order, overflows an `i32`.
pub open spec fn credits_fit(bal: Map<Seq<char>, i32>, cs: Seq<(Seq<char>, int)>) -> bool
    decreases cs.len(),
{
    cs.len() == 0 || (credits_fit(bal, cs.drop_last()) && credit_in_range(
        apply_credits(bal, cs.drop_last()),
        cs.last().0,
        cs.last().1,
    ))
}

proof fn lemma_credits_fit_prefix(bal: Map<Seq<char>, i32>, cs: Seq<(Seq<char>, int)>, k: int)
    requires
        credits_fit(bal, cs),
        0 <= k <= cs.len(),
    ensures
        credits_fit(bal, cs.subrange(0, k)),
    decreases cs.len(),
{
    if k < cs.len() {
        lemma_credits_fit_prefix(bal, cs.drop_last(), k);
        assert(cs.drop_last().subrange(0, k) =~= cs.subrange(0, k));
    } else {
        assert(cs.subrange(0, k) =~= cs);
    }
}

/// Receiving `token_ids` with metadata `metas` can go ahead without a panic: when
/// the contract is set up, there is one readable metadata per token and no credit
/// overflows.
pub open spec fn receive_ready(store: Store, token_ids: Seq<String>, metas: Seq<Metadata>) -> bool {
    store.config is Some ==> {
        &&& metas.len() == token_ids.len()
        &&& forall|i: int| 0 <= i < metas.len() ==> #[trigger] metadata_readable(metas[i])
        &&& credits_fit(store.balances(), receive_credits(metas))
    }
}

/// What receiving `token_ids` with metadata `metas` does: where no configuration
/// is stored it fails as reading it fails and changes nothing; otherwise it
/// appends one item per token, in order, to the pool, applies the owners' credits
/// in order, writes the configuration back (over any account written to its key
/// meanwhile), and answers with an empty response.
pub open spec fn receive_post(
    old: Store,
    new: Store,
    token_ids: Seq<String>,
    metas: Seq<Metadata>,
    r: Result<HandleResponse, ContractError>,
) -> bool {
    match old.config {
        None => r == Err::<HandleResponse, ContractError>(load_state(old)->Err_0) && new == old,
        Some(st) => {
            &&& r matches Ok(resp) && resp.messages@.len() == 0 && resp.data is None
            &&& new.balances() == apply_credits(old.balances(), receive_credits(metas)).insert(
                config_key(),
                state_as_user(st),
            )
            &&& new.config matches Some(ns) && {
                &&& ns.admin == st.admin
                &&& ns.code_hash == st.code_hash
                &&& ns.nft == st.nft
                &&& ns.items@.len() == st.items@.len() + token_ids.len()
                &&& ns.items@.subrange(0, st.items@.len() as int) == st.items@
                &&& forall|i: int|
                    0 <= i < token_ids.len() ==> #[trigger] item_from_metadata(
                        ns.items@[st.items@.len() + i],
                        metas[i],
                        token_ids[i],
                    )
            }
        },
    }
}

/// Whether receiving `token_ids` with metadata `metadata` can go ahead.
pub fn receive_can_run(store: &Store, token_ids: &[String], metadata: &Vec<Metadata>) -> (r: bool)
    ensures
        r == receive_ready(*store, token_ids@, metadata@),
{
    if store.config.is_none() {
        return true;
    }
    if metadata.len() != token_ids.len() {
        return false;
    }
    let ghost cs = receive_credits(metadata@);
    let mut scratch = store.accounts_copy();
    let mut i: usize = 0;
    while i < metadata.len()
        invariant
            i <= metadata@.len(),
            store.config is Some,
            metadata@.len() == token_ids@.len(),
            cs == receive_credits(metadata@),
            forall|k: int| 0 <= k < i ==> #[trigger] metadata_readable(metadata@[k]),
            credits_fit(store.balances(), cs.subrange(0, i as int)),
            scratch.balances() == apply_credits(store.balances(), cs.subrange(0, i as int)),
        decreases metadata@.len() - i,
    {
        let m = &metadata[i];
        let ghost sub = cs.subrange(0, i as int);
        let ghost next = cs.subrange(0, i + 1);
        assert(next.drop_last() =~= sub);
        if !is_metadata_readable(m) {
            return false;
        }
        let p = parse_description(m.description.as_ref().unwrap().as_str()).unwrap();
        if !credit_fits(&scratch, &p.owner, p.value) {
            proof {
                if credits_fit(store.balances(), cs) {
                    lemma_credits_fit_prefix(store.balances(), cs, i + 1);
                }
            }
            return false;
        }
        let _ = change_currency(&mut scratch, p.owner, p.value);
        i = i + 1;
    }
    assert(cs.subrange(0, i as int) =~= cs);
    true
}

/// Adds the NFTs that `from` sent to the pool: one item per token, made from the
/// metadata that the NFT contract reports for it (`metadata[i]` for `token_ids[i]`),
/// crediting each token's value to the owner its description names.
pub fn try_receive(
    store: &mut Store,
    env: Env,
    from: String,
    token_ids: &[String],
    msg: Option<Vec<u8>>,
    metadata: Vec<Metadata>,
) -> (r: Result<HandleResponse, ContractError>)
    requires
        receive_ready(*old(store), token_ids@, metadata@),
    ensures
        receive_post(*old(store), *final(store), token_ids@, metadata@, r),
{
    let mut state = match &store.config {
        Some(st) => st.duplicate(),
        None => {
            return Err(state_load_error(store));
        },
    };
    let ghost st0 = store.config->Some_0;
    let ghost bal0 = store.balances();
    let ghost cs = receive_credits(metadata@);
    let ghost old_len = state.items@.len();
    let mut metas = metadata;
    let ghost all_metas = metas@;
    let n = token_ids.len();
    let mut i: usize = 0;
    while i < n
        invariant
            n == token_ids@.len(),
            all_metas.len() == n,
            i <= n,
            metas@ == all_metas.subrange(i as int, n as int),
            cs == receive_credits(all_metas),
            forall|k: int| 0 <= k < n ==> #[trigger] metadata_readable(all_metas[k]),
            credits_fit(bal0, cs),
            store.config is None || store.config == Some(st0),
            store.balances() == apply_credits(bal0, cs.subrange(0, i as int)),
            state.admin == st0.admin,
            state.code_hash == st0.code_hash,
            state.nft == st0.nft,
            state.items@.len() == old_len + i,
            old_len == st0.items@.len(),
            state.items@.subrange(0, old_len as int) == st0.items@,
            forall|k: int|
                0 <= k < i ==> #[trigger] item_from_metadata(
                    state.items@[old_len + k],
                    all_metas[k],
                    token_ids@[k],
                ),
        decreases n - i,
    {
        let ghost sub = cs.subrange(0, i as int);
        let ghost next = cs.subrange(0, i + 1);
        assert(next.drop_last() =~= sub);
        proof {
            lemma_credits_fit_prefix(bal0, cs, i + 1);
        }
        assert(metas@[0] == all_metas[i as int]);
        let m = metas.remove(0);
        assert(metas@ =~= all_metas.subrange(i + 1, n as int));
        let item = creat_item_from_metadata(store, m, token_ids[i].clone());
        let ghost before = state.items@;
        state.items.push(item);
        assert(state.items@.subrange(0, old_len as int) =~= before.subrange(0, old_len as int));
        i = i + 1;
    }
    assert(cs.subrange(0, i as int) =~= cs);
    assert(state_as_user(state) == state_as_user(st0));
    let ghost pre = *store;
    store.save_state(state);
    assert(store.balances() =~= apply_credits(bal0, cs).insert(config_key(), state_as_user(st0)));
    Ok(HandleResponse::empty())
}

/* The loot pool */

/// The balance of `sender` after paying the buy-in of the pool in `st`.
pub open spec fn balance_after_buyin(bal: Map<Seq<char>, i32>, sender: Seq<char>, st: State) -> int {
    balance_or_zero(bal, sender) - buyin_price(item_values(st.items@))
}

/// A round of the loot pool can run without a panic: when the contract is set up,
/// the pool is not empty, its size fits a `u32`, and paying the buy-in does not
/// overflow the sender's funds.
pub open spec fn lootpool_ready(store: Store, sender: Seq<char>) -> bool {
    store.config matches Some(st) ==> {
        &&& st.items@.len() > 0
        &&& st.items@.len() <= u32::MAX
        &&& i32::MIN <= balance_after_buyin(store.balances(), sender, st) <= i32::MAX
    }
}

/// The sequence after `Vec::swap_remove(i)`: the last element takes the place of
/// the `i`-th, and the sequence is one shorter.
pub open spec fn swap_removed<T>(s: Seq<T>, i: int) -> Seq<T> {
    s.update(i, s.last()).drop_last()
}

/// The index of the item that draw `draw` picks from a pool of `len` items.
pub open spec fn drawn_index(draw: u32, len: nat) -> int {
    (draw as int) % (len as int)
}

/// What a round of the loot pool with draw `draw` does: where no configuration is
/// stored it fails as reading it fails; when the sender cannot pay the buy-in it
/// fails with `Unauthorized`; in both cases nothing changes. Otherwise the sender
/// pays the buy-in, the drawn item leaves the pool (by swap-remove), and the
/// response transfers its token to the sender and names it as won. The sender's
/// account is written last, so a sender at the configuration's key replaces the
/// configuration record.
pub open spec fn lootpool_post(
    old: Store,
    new: Store,
    env: Env,
    draw: u32,
    r: Result<HandleResponse, ContractError>,
) -> bool {
    match old.config {
        None => r == Err::<HandleResponse, ContractError>(load_state(old)->Err_0) && new == old,
        Some(st) => {
            let left = balance_after_buyin(old.balances(), env.sender@, st);
            let idx = drawn_index(draw, st.items@.len());
            let won = st.items@[idx];
            if left < 0 {
                r == Err::<HandleResponse, ContractError>(ContractError::Unauthorized) && new
                    == old
            } else {
                &&& new.balances() == old.balances().insert(env.sender@, left as i32)
                &&& (env.sender@ == config_key() ==> new.config is None)
                &&& (env.sender@ != config_key() ==> (new.config matches Some(ns) && {
                    &&& ns.admin == st.admin
                    &&& ns.code_hash == st.code_hash
                    &&& ns.nft == st.nft
                    &&& ns.items@ == swap_removed(st.items@, idx)
                }))
                &&& r matches Ok(resp) && {
                    &&& resp.data == Some(HandleAnswer::WonItem { item: won })
                    &&& resp.messages@ == seq![
                        (OutgoingMsg::TransferNft {
                            recipient: env.sender,
                            token_id: won.tokenid,
                            memo: None,
                            padding: None,
                            block_size: BLOCK_SIZE,
                            callback_code_hash: st.code_hash,
                            contract_addr: st.nft,
                        }),
                    ]
                }
            }
        },
    }
}

/// Whether a round of the loot pool can run for `sender`.
pub fn lootpool_can_run(store: &Store, sender: &String) -> (r: bool)
    ensures
        r == lootpool_ready(*store, sender@),
{
    match &store.config {
        None => true,
        Some(st) => {
            let len = st.items.len();
            if len == 0 || len > 4294967295 {
                return false;
            }
            let price = buyin_price_of_items(&st.items);
            let cur = store.balance_of(sender);
            let left = (cur as i64) - (price as i64);
            left >= i32::MIN as i64 && left <= i32::MAX as i64
        },
    }
}

/// A round of the loot pool with the draw `draw`.
pub fn start_lootpool_with_draw(store: &mut Store, env: Env, draw: u32) -> (r: Result<
    HandleResponse,
    ContractError,
>)
    requires
        lootpool_ready(*old(store), env.sender@),
    ensures
        lootpool_post(*old(store), *final(store), env, draw, r),
{
    let (price, len) = match &store.config {
        Some(st) => (buyin_price_of_items(&st.items), st.items.len()),
        None => {
            return Err(state_load_error(store));
        },
    };
    let cur = store.balance_of(&env.sender);
    let left = cur - price;
    if left < 0 {
        return Err(ContractError::Unauthorized);
    }
    let dice = (draw % (len as u32)) as usize;
    let mut st = store.config.take().unwrap();
    let item = st.items.swap_remove(dice);
    let transfer = OutgoingMsg::TransferNft {
        recipient: env.sender.clone(),
        token_id: item.tokenid.clone(),
        memo: None,
        padding: None,
        block_size: BLOCK_SIZE,
        callback_code_hash: st.code_hash.clone(),
        contract_addr: st.nft.clone(),
    };
    store.save_state(st);
    store.save_user(env.sender, User { currency: left });
    let mut messages: Vec<OutgoingMsg> = Vec::new();
    messages.push(transfer);
    Ok(HandleResponse { messages, data: Some(HandleAnswer::WonItem { item }) })
}

/// A round of the loot pool: the sender pays the buy-in (the upper median of the
/// items' values) and wins the item picked by the pool's draw.
pub fn try_start_lootpool(store: &mut Store, env: Env) -> (r: Result<HandleResponse, ContractError>)
    requires
        lootpool_ready(*old(store), env.sender@),
    ensures
        lootpool_post(*old(store), *final(store), env, loot_draw_value(), r),
{
    let draw = loot_draw();
    start_lootpool_with_draw(store, env, draw)
}

/* Dispatch */

/// A transaction can be handled without a panic.
pub open spec fn handle_ready(store: Store, env: Env, msg: HandleMsg, received: Seq<Metadata>) -> bool {
    match msg {
        HandleMsg::AddFunds { ammount } => credit_in_range(
            store.balances(),
            env.sender@,
            ammount as int,
        ),
        HandleMsg::BatchReceiveNft { token_ids, .. } => receive_ready(store, token_ids@, received),
        HandleMsg::StartLootPool {  } => lootpool_ready(store, env.sender@),
    }
}

/// What handling `msg` does: what the operation it names does.
pub open spec fn handle_post(
    old: Store,
    new: Store,
    env: Env,
    msg: HandleMsg,
    received: Seq<Metadata>,
    r: Result<HandleResponse, ContractError>,
) -> bool {
    match msg {
        HandleMsg::AddFunds { ammount } => add_funds_post(old, new, env.sender@, ammount as int, r),
        HandleMsg::BatchReceiveNft { token_ids, .. } => receive_post(
            old,
            new,
            token_ids@,
            received,
            r,
        ),
        HandleMsg::StartLootPool {  } => lootpool_post(old, new, env, loot_draw_value(), r),
    }
}

/// Handles a transaction. For `BatchReceiveNft`, `received` holds the metadata
/// that the NFT contract reports for each of its tokens, in order.
pub fn handle(store: &mut Store, env: Env, msg: HandleMsg, received: Vec<Metadata>) -> (r: Result<
    HandleResponse,
    ContractError,
>)
    requires
        handle_ready(*old(store), env, msg, received@),
    ensures
        handle_post(*old(store), *final(store), env, msg, received@, r),
{
    match msg {
        HandleMsg::AddFunds { ammount } => change_funds(store, env, ammount),
        HandleMsg::BatchReceiveNft { sender: _, from, token_ids, msg } => try_receive(
            store,
            env,
            from,
            token_ids.as_slice(),
            msg,
            received,
        ),
        HandleMsg::StartLootPool {  } => try_start_lootpool(store, env),
    }
}

/* Queries */

/// The settings and pool of the contract; fails as reading the configuration
/// fails where none is stored.
pub fn query_settings(store: &Store) -> (r: Result<IniDataResponse, ContractError>)
    ensures
        store.config is None ==> r == Err::<IniDataResponse, ContractError>(
            load_state(*store)->Err_0,
        ),
        store.config matches Some(st) ==> r matches Ok(resp) && {
            &&& resp.admin == st.admin
            &&& resp.code_hash == st.code_hash
            &&& resp.nft == st.nft
            &&& resp.items@ == st.items@
        },
{
    match &store.config {
        None => Err(state_load_error(store)),
        Some(st) => Ok(
            IniDataResponse {
                nft: st.nft.clone(),
                code_hash: st.code_hash.clone(),
                admin: st.admin.clone(),
                items: clone_items(&st.items),
            },
        ),
    }
}

/// The pool and its buy-in price; fails as reading the configuration fails
/// where none is stored.
pub fn query_pool(store: &Store) -> (r: Result<LootPoolResponse, ContractError>)
    requires
        store.config matches Some(st) ==> st.items@.len() > 0,
    ensures
        store.config is None ==> r == Err::<LootPoolResponse, ContractError>(
            load_state(*store)->Err_0,
        ),
        store.config matches Some(st) ==> r matches Ok(resp) && {
            &&& resp.buyin == buyin_price(item_values(st.items@))
            &&& resp.items@ == st.items@
        },
{
    match &store.config {
        None => Err(state_load_error(store)),
        Some(st) => Ok(
            LootPoolResponse { buyin: buyin_price_of_items(&st.items), items: clone_items(&st.items) },
        ),
    }
}

/// The funds of `adress`: zero for an address that has no account.
pub fn query_account(store: &Store, adress: String) -> (r: QueryAccountResponse)
    ensures
        r.adress == adress,
        r.funds == balance_or_zero(store.balances(), adress@),
{
    let funds = store.balance_of(&adress);
    QueryAccountResponse { adress, funds }
}

/// A query can be answered without a panic.
pub open spec fn query_ready(store: Store, msg: QueryMsg) -> bool {
    msg is QueryPool ==> (store.config matches Some(st) ==> st.items@.len() > 0)
}

/// Answers a query.
pub fn query(store: &Store, msg: QueryMsg) -> (r: Result<QueryAnswer, ContractError>)
    requires
        query_ready(*store, msg),
    ensures
        match msg {
            QueryMsg::GetSettings {  } => match store.config {
                None => r == Err::<QueryAnswer, ContractError>(load_state(*store)->Err_0),
                Some(st) => r matches Ok(QueryAnswer::Settings(resp)) && resp.admin == st.admin
                    && resp.code_hash == st.code_hash && resp.nft == st.nft && resp.items@
                    == st.items@,
            },
            QueryMsg::QueryAccount { adress } => r matches Ok(QueryAnswer::Account(resp))
                && resp.adress == adress && resp.funds == balance_or_zero(
                store.balances(),
                adress@,
            ),
            QueryMsg::QueryPool {  } => match store.config {
                None => r == Err::<QueryAnswer, ContractError>(load_state(*store)->Err_0),
                Some(st) => r matches Ok(QueryAnswer::Pool(resp)) && resp.buyin == buyin_price(
                    item_values(st.items@),
                ) && resp.items@ == st.items@,
            },
        },
{
    match msg {
        QueryMsg::GetSettings {  } => match query_settings(store) {
            Ok(resp) => Ok(QueryAnswer::Settings(resp)),
            Err(e) => Err(e),
        },
        QueryMsg::QueryAccount { adress } => Ok(QueryAnswer::Account(query_account(store, adress))),
        QueryMsg::QueryPool {  } => match query_pool(store) {
            Ok(resp) => Ok(QueryAnswer::Pool(resp)),
            Err(e) => Err(e),
        },
    }
}

} // verus!
