use rand::{RngCore, SeedableRng};
use sha2::{Digest, Sha256};
use lootpool::contract::{
    change_funds, handle, init, lootpool_can_run, query, query_account, query_pool,
    query_settings, receive_can_run, start_lootpool_with_draw, try_receive, try_start_lootpool,
};
use lootpool::controller::{creat_item_from_metadata, Metadata};
use lootpool::draw::loot_draw;
use lootpool::msg::{
    Env, HandleAnswer, HandleMsg, InitMsg, OutgoingMsg, QueryAnswer, QueryMsg, BLOCK_SIZE,
};
use lootpool::state::{ContractError, Item, Store};

fn env(sender: &str) -> Env {
    Env { sender: sender.to_string(), contract_code_hash: "cosmos2contract".to_string() }
}

fn set_up() -> Store {
    let mut store = Store::new();
    let msg = InitMsg { address: "testadress".to_string(), code_hash: "testhash".to_string() };
    init(&mut store, env("creator"), msg);
    store
}

fn metadata(name: &str, description: &str) -> Metadata {
    Metadata {
        name: Some(name.to_string()),
        image: Some("image".to_string()),
        description: Some(description.to_string()),
    }
}

fn item(name: &str, value: i32, trade_ready: &str, tokenid: &str) -> Item {
    Item {
        name: name.to_string(),
        value,
        tradeReady: trade_ready.to_string(),
        tokenid: tokenid.to_string(),
    }
}

fn pool_with(values: &[i32]) -> Store {
    let mut store = set_up();
    let ids: Vec<String> = (0..values.len()).map(|i| i.to_string()).collect();
    let metas: Vec<Metadata> = values
        .iter()
        .map(|v| metadata("skin", &format!("2021-01-01%%{}%%owner", v)))
        .collect();
    assert!(receive_can_run(&store, &ids, &metas));
    try_receive(&mut store, env("nft"), "from".to_string(), &ids, None, metas).unwrap();
    store
}

#[test]
fn contract_proper_initialization() {
    let store = set_up();
    let value = match query(&store, QueryMsg::GetSettings {}).unwrap() {
        QueryAnswer::Settings(v) => v,
        _ => panic!("wrong answer"),
    };
    assert_eq!("testhash".to_string(), value.code_hash);
}

#[test]
fn change_account_funds() {
    let mut store = set_up();
    handle(&mut store, env("creator"), HandleMsg::AddFunds { ammount: 10 }, vec![]).unwrap();
    handle(&mut store, env("creator"), HandleMsg::AddFunds { ammount: -9 }, vec![]).unwrap();
    let value = match query(&store, QueryMsg::QueryAccount { adress: "creator".to_string() })
        .unwrap()
    {
        QueryAnswer::Account(v) => v,
        _ => panic!("wrong answer"),
    };
    assert_eq!(1, value.funds);
}

#[test]
fn creat_nft() {
    let mut store = set_up();
    let a = Metadata {
        name: Some("name".to_string()),
        image: Some("image".to_string()),
        description: Some("1942-09-06%%100%%55%%creator".to_string()),
    };
    let item = creat_item_from_metadata(&mut store, a, "0".to_string());
    let _res = query_account(&store, "creator".to_string());
    assert_eq!(
        Item {
            name: "name".to_string(),
            value: 100,
            tradeReady: "1942-09-06".to_string(),
            tokenid: "0".to_string()
        },
        item
    );
}

#[test]
fn init_writes_settings_and_registers() {
    let mut store = Store::new();
    let msg = InitMsg { address: "nftaddr".to_string(), code_hash: "nfthash".to_string() };
    let resp = init(&mut store, env("admin"), msg);
    assert_eq!(
        resp.messages,
        vec![OutgoingMsg::RegisterReceiveNft {
            code_hash: "cosmos2contract".to_string(),
            also_implements_batch_receive_nft: Some(true),
            padding: None,
            block_size: 256,
            callback_code_hash: "nfthash".to_string(),
            contract_addr: "nftaddr".to_string(),
        }]
    );
    let s = query_settings(&store).unwrap();
    assert_eq!(s.admin, "admin");
    assert_eq!(s.nft, "nftaddr");
    assert_eq!(s.code_hash, "nfthash");
    assert!(s.items.is_empty());
}

#[test]
fn queries_before_setup_are_not_found() {
    let store = Store::new();
    assert_eq!(query_settings(&store), Err(ContractError::NotFound));
    assert_eq!(query_pool(&store), Err(ContractError::NotFound));
    assert_eq!(query(&store, QueryMsg::GetSettings {}), Err(ContractError::NotFound));
}

#[test]
fn unknown_account_has_no_funds() {
    let store = set_up();
    let r = query_account(&store, "nobody".to_string());
    assert_eq!(r.adress, "nobody");
    assert_eq!(r.funds, 0);
}

#[test]
fn negative_funds_are_refused() {
    let mut store = set_up();
    change_funds(&mut store, env("alice"), 5).unwrap();
    assert_eq!(change_funds(&mut store, env("alice"), -6), Err(ContractError::Unauthorized));
    assert_eq!(query_account(&store, "alice".to_string()).funds, 5);
    assert_eq!(change_funds(&mut store, env("bob"), -1), Err(ContractError::Unauthorized));
    assert_eq!(query_account(&store, "bob".to_string()).funds, 0);
}

#[test]
fn accepted_changes_add_up_and_leave_others() {
    let mut store = set_up();
    change_funds(&mut store, env("alice"), 7).unwrap();
    change_funds(&mut store, env("bob"), 3).unwrap();
    change_funds(&mut store, env("alice"), 11).unwrap();
    change_funds(&mut store, env("alice"), -4).unwrap();
    assert_eq!(query_account(&store, "alice".to_string()).funds, 14);
    assert_eq!(query_account(&store, "bob".to_string()).funds, 3);
}

#[test]
fn receive_before_setup_is_not_found() {
    let mut store = Store::new();
    let ids = vec!["1".to_string()];
    let metas = vec![metadata("n", "d%%1%%o")];
    assert_eq!(
        try_receive(&mut store, env("nft"), "from".to_string(), &ids, None, metas),
        Err(ContractError::NotFound)
    );
}

#[test]
fn receive_appends_items_and_credits_owners() {
    let mut store = set_up();
    let ids = vec!["7".to_string(), "8".to_string(), "9".to_string()];
    let metas = vec![
        metadata("a", "2020-01-01%%10%%alice"),
        metadata("b", "2020-02-02%%-3%%alice"),
        metadata("c", "2020-03-03%%-5%%bob"),
    ];
    assert!(receive_can_run(&store, &ids, &metas));
    let r = try_receive(&mut store, env("nft"), "from".to_string(), &ids, None, metas).unwrap();
    assert!(r.messages.is_empty());
    assert!(r.data.is_none());
    let s = query_settings(&store).unwrap();
    assert_eq!(
        s.items,
        vec![
            item("a", 10, "2020-01-01", "7"),
            item("b", -3, "2020-02-02", "8"),
            item("c", -5, "2020-03-03", "9"),
        ]
    );
    // alice: 10 - 3; bob's negative credit is dropped.
    assert_eq!(query_account(&store, "alice".to_string()).funds, 7);
    assert_eq!(query_account(&store, "bob".to_string()).funds, 0);
}

#[test]
fn receive_checks_readable_metadata() {
    let store = set_up();
    let ids = vec!["1".to_string()];
    assert!(!receive_can_run(&store, &ids, &vec![metadata("a", "no separators")]));
    assert!(!receive_can_run(&store, &ids, &vec![metadata("a", "x%%notanumber%%o")]));
    assert!(!receive_can_run(&store, &ids, &vec![]));
    let no_name = Metadata { name: None, description: Some("x%%1%%o".to_string()), image: None };
    assert!(!receive_can_run(&store, &ids, &vec![no_name]));
    assert!(receive_can_run(&store, &ids, &vec![metadata("a", "x%%1%%o")]));
}

#[test]
fn receive_checks_overflow() {
    let mut store = set_up();
    change_funds(&mut store, env("o"), i32::MAX).unwrap();
    let ids = vec!["1".to_string()];
    assert!(!receive_can_run(&store, &ids, &vec![metadata("a", "x%%1%%o")]));
    assert!(receive_can_run(&store, &ids, &vec![metadata("a", "x%%0%%o")]));
}

#[test]
fn pool_price_is_upper_median() {
    let store = pool_with(&[50, 10, 40, 20]);
    // sorted: 10 20 40 50, index 2
    assert_eq!(query_pool(&store).unwrap().buyin, 40);
    let store = pool_with(&[5, 1, 3]);
    assert_eq!(query_pool(&store).unwrap().buyin, 3);
    let store = pool_with(&[-7]);
    assert_eq!(query_pool(&store).unwrap().buyin, -7);
}

#[test]
fn round_with_draw_wins_item_and_costs_buyin() {
    let mut store = pool_with(&[50, 10, 40, 20]);
    change_funds(&mut store, env("player"), 100).unwrap();
    assert!(lootpool_can_run(&store, &"player".to_string()));
    // draw 5 picks index 5 % 4 == 1
    let r = start_lootpool_with_draw(&mut store, env("player"), 5).unwrap();
    let won = item("skin", 10, "2021-01-01", "1");
    assert_eq!(r.data, Some(HandleAnswer::WonItem { item: won }));
    assert_eq!(
        r.messages,
        vec![OutgoingMsg::TransferNft {
            recipient: "player".to_string(),
            token_id: "1".to_string(),
            memo: None,
            padding: None,
            block_size: BLOCK_SIZE,
            callback_code_hash: "testhash".to_string(),
            contract_addr: "testadress".to_string(),
        }]
    );
    assert_eq!(query_account(&store, "player".to_string()).funds, 60);
    let values: Vec<i32> = query_settings(&store).unwrap().items.iter().map(|i| i.value).collect();
    // swap-remove: the last item takes the won item's place
    assert_eq!(values, vec![50, 20, 40]);
}

#[test]
fn round_without_funds_is_refused() {
    let mut store = pool_with(&[50, 10, 40, 20]);
    change_funds(&mut store, env("player"), 39).unwrap();
    let before = store.clone();
    assert_eq!(
        start_lootpool_with_draw(&mut store, env("player"), 0),
        Err(ContractError::Unauthorized)
    );
    assert_eq!(store, before);
}

#[test]
fn round_before_setup_is_not_found() {
    let mut store = Store::new();
    assert_eq!(try_start_lootpool(&mut store, env("p")), Err(ContractError::NotFound));
}

#[test]
fn round_readiness() {
    let store = set_up();
    assert!(!lootpool_can_run(&store, &"p".to_string()));
    assert!(lootpool_can_run(&Store::new(), &"p".to_string()));
    let mut store = pool_with(&[-5]);
    change_funds(&mut store, env("p"), i32::MAX).unwrap();
    assert!(!lootpool_can_run(&store, &"p".to_string()));
}

fn expected_draw() -> u32 {
    let secret: Vec<u8> = 123456u128.to_be_bytes().to_vec();
    let seed: [u8; 32] = Sha256::digest(&secret).into();
    let mut rng = rand_chacha::ChaChaRng::from_seed(seed);
    rng.next_u32()
}

#[test]
fn loot_draw_is_chacha_of_digest() {
    let d = loot_draw();
    assert_eq!(d, expected_draw());
    // the draw is neither the secret nor a byte of it handed back
    assert_ne!(d, 123456);
    assert_ne!(d, 0);
}

#[test]
fn round_uses_the_loot_draw() {
    let values = [50, 10, 40, 20, 30];
    let mut store = pool_with(&values);
    change_funds(&mut store, env("player"), 1000).unwrap();
    let idx = (expected_draw() % values.len() as u32) as usize;
    let r = handle(&mut store, env("player"), HandleMsg::StartLootPool {}, vec![]).unwrap();
    match r.data {
        Some(HandleAnswer::WonItem { item }) => {
            assert_eq!(item.tokenid, idx.to_string());
            assert_eq!(item.value, values[idx]);
        }
        None => panic!("no item won"),
    }
    // buy-in: sorted 10 20 30 40 50, index 2
    assert_eq!(query_account(&store, "player".to_string()).funds, 970);
}

#[test]
fn funds_never_go_negative() {
    let mut store = pool_with(&[3, 9, 4]);
    let amounts = [5, -7, 2, -2, -1, 10, -9, -3, 8];
    for (i, a) in amounts.iter().enumerate() {
        let who = if i % 2 == 0 { "p" } else { "q" };
        let _ = change_funds(&mut store, env(who), *a);
        for acc in store.accounts.iter() {
            assert!(acc.user.currency >= 0);
        }
    }
    let _ = start_lootpool_with_draw(&mut store, env("p"), 2);
    let _ = start_lootpool_with_draw(&mut store, env("q"), 2);
    for acc in store.accounts.iter() {
        assert!(acc.user.currency >= 0);
    }
}

#[test]
fn creat_nft_credits_the_named_owner() {
    let mut store = set_up();
    let a = metadata("name", "1942-09-06%%100%%55%%creator");
    let _item = creat_item_from_metadata(&mut store, a, "0".to_string());
    assert_eq!(query_account(&store, "55".to_string()).funds, 100);
    assert_eq!(query_account(&store, "creator".to_string()).funds, 0);
}

#[test]
fn account_read_at_config_key_decodes_settings() {
    // the stored settings start with the admin's byte length ("creator": 7)
    let store = set_up();
    assert_eq!(query_account(&store, "config".to_string()).funds, 7);
    assert_eq!(query_account(&Store::new(), "config".to_string()).funds, 0);
}

#[test]
fn funds_written_at_config_key_replace_settings() {
    let mut store = set_up();
    change_funds(&mut store, env("config"), 1).unwrap();
    assert_eq!(query_account(&store, "config".to_string()).funds, 8);
    assert_eq!(query_settings(&store), Err(ContractError::ParseError));
    assert_eq!(query_pool(&store), Err(ContractError::ParseError));
    assert_eq!(
        try_start_lootpool(&mut store, env("p")),
        Err(ContractError::ParseError)
    );
    // a refused change writes nothing
    let mut store = set_up();
    assert_eq!(change_funds(&mut store, env("config"), -8), Err(ContractError::Unauthorized));
    assert!(query_settings(&store).is_ok());
}

#[test]
fn receive_writes_settings_back_over_config_credit() {
    let mut store = set_up();
    let ids = vec!["1".to_string(), "2".to_string()];
    let metas = vec![metadata("a", "d%%5%%config"), metadata("b", "d%%3%%config")];
    assert!(receive_can_run(&store, &ids, &metas));
    try_receive(&mut store, env("nft"), "from".to_string(), &ids, None, metas).unwrap();
    let s = query_settings(&store).unwrap();
    assert_eq!(s.items.len(), 2);
    assert_eq!(query_account(&store, "config".to_string()).funds, 7);
}

#[test]
fn receive_in_two_batches_matches_one() {
    let metas = vec![
        metadata("a", "d%%5%%alice"),
        metadata("b", "d%%-9%%alice"),
        metadata("c", "d%%4%%bob"),
    ];
    let ids: Vec<String> = vec!["1".to_string(), "2".to_string(), "3".to_string()];
    let mut one = set_up();
    try_receive(&mut one, env("nft"), "f".to_string(), &ids, None, metas.clone()).unwrap();
    let mut two = set_up();
    try_receive(&mut two, env("nft"), "f".to_string(), &ids[..1], None, metas[..1].to_vec())
        .unwrap();
    try_receive(&mut two, env("nft"), "f".to_string(), &ids[1..], None, metas[1..].to_vec())
        .unwrap();
    assert_eq!(query_settings(&one), query_settings(&two));
    for who in ["alice", "bob", "config"] {
        assert_eq!(query_account(&one, who.to_string()), query_account(&two, who.to_string()));
    }
}

#[test]
fn round_by_config_sender_replaces_settings() {
    let mut store = pool_with(&[2]);
    // "config" reads 7 (the admin's length); the buy-in is 2
    let r = start_lootpool_with_draw(&mut store, env("config"), 0).unwrap();
    assert!(r.data.is_some());
    assert_eq!(query_account(&store, "config".to_string()).funds, 5);
    assert_eq!(query_settings(&store), Err(ContractError::ParseError));
}
