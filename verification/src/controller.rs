use vstd::prelude::*;
use vstd::relations::{sorted_by, total_ordering};
use vstd::seq_lib::lemma_sorted_unique;

use vstd::utf8::{decode_utf8, encode_utf8};

use crate::parse::{description_readable, parse_description, parse_i32, split_field};
use crate::state::{config_key, all_nonneg, balance_or_zero, item_values, ContractError, Item, State, Store, User};

verus! {

broadcast use vstd::seq_lib::group_to_multiset_ensures;

/// The order in which values are sorted: ascending.
pub open spec fn value_leq() -> spec_fn(i32, i32) -> bool {
    |a: i32, b: i32| a <= b
}

/// The values in ascending order.
pub open spec fn sorted_values(values: Seq<i32>) -> Seq<i32> {
    values.sort_by(value_leq())
}

/// The buy-in price of a pool whose items have `values`: the value at position
/// `len / 2` of the values in ascending order (the upper median).
pub open spec fn buyin_price(values: Seq<i32>) -> i32 {
    sorted_values(values)[values.len() as int / 2]
}

/// Ascending order on `i32` is a total order.
pub proof fn lemma_value_leq_total()
    ensures
        total_ordering(value_leq()),
{
    let leq = value_leq();
    assert forall|x: i32| #[trigger] leq(x, x) by {}
    assert forall|x: i32, y: i32| #[trigger] leq(x, y) && #[trigger] leq(y, x) implies x == y by {}
    assert forall|x: i32, y: i32, z: i32| #[trigger] leq(x, y) && #[trigger] leq(y, z) implies leq(
        x,
        z,
    ) by {}
    assert forall|x: i32, y: i32| #[trigger] leq(x, y) || #[trigger] leq(y, x) by {}
}

/// The sorted values are the values in ascending order, each as often as before.
pub proof fn lemma_sorted_values(values: Seq<i32>)
    ensures
        sorted_by(sorted_values(values), value_leq()),
        sorted_values(values).to_multiset() == values.to_multiset(),
        sorted_values(values).len() == values.len(),
{
    lemma_value_leq_total();
    values.lemma_sort_by_ensures(value_leq());
    vstd::seq_lib::to_multiset_len(values);
    vstd::seq_lib::to_multiset_len(sorted_values(values));
}

/// Sorts `values` in ascending order (insertion sort).
fn sort_values(values: &Vec<i32>) -> (r: Vec<i32>)
    ensures
        r@ == sorted_values(values@),
{
    let ghost leq = value_leq();
    let mut r: Vec<i32> = Vec::new();
    let mut i: usize = 0;
    while i < values.len()
        invariant
            i <= values.len(),
            leq == value_leq(),
            sorted_by(r@, leq),
            r@.to_multiset() == values@.subrange(0, i as int).to_multiset(),
        decreases values.len() - i,
    {
        let x = values[i];
        let mut j: usize = 0;
        while j < r.len() && r[j] <= x
            invariant
                j <= r.len(),
                forall|k: int| 0 <= k < j ==> #[trigger] r@[k] <= x,
            decreases r.len() - j,
        {
            j = j + 1;
        }
        let ghost before = r@;
        r.insert(j, x);
        assert(sorted_by(r@, leq)) by {
            assert forall|a: int, b: int| 0 <= a < b < r@.len() implies #[trigger] leq(
                r@[a],
                r@[b],
            ) by {
                if a < j && b == j {
                    assert(before[a] <= x);
                } else if a == j && b > j {
                    assert(j < before.len());
                    assert(!(before[j as int] <= x));
                    if b - 1 > j {
                        assert(leq(before[j as int], before[b - 1]));
                    }
                } else if a < j && b > j {
                    assert(leq(before[a], before[b - 1]));
                } else if a > j {
                    assert(leq(before[a - 1], before[b - 1]));
                } else {
                    assert(leq(before[a], before[b]));
                }
            }
        }
        assert(values@.subrange(0, i + 1) =~= values@.subrange(0, i as int).push(x));
        i = i + 1;
    }
    proof {
        assert(values@.subrange(0, i as int) =~= values@);
        lemma_sorted_values(values@);
        lemma_value_leq_total();
        lemma_sorted_unique(r@, sorted_values(values@), leq);
    }
    r
}

/// The buy-in price of a non-empty pool of items.
pub fn buyin_price_of_items(items: &Vec<Item>) -> (r: i32)
    requires
        items@.len() > 0,
    ensures
        r == buyin_price(item_values(items@)),
{
    let mut values: Vec<i32> = Vec::new();
    let mut i: usize = 0;
    while i < items.len()
        invariant
            i <= items.len(),
            values@ == item_values(items@.subrange(0, i as int)),
        decreases items.len() - i,
    {
        values.push(items[i].value);
        i = i + 1;
        assert(values@ =~= item_values(items@.subrange(0, i as int)));
    }
    assert(items@.subrange(0, i as int) =~= items@);
    let sorted = sort_values(&values);
    proof {
        lemma_sorted_values(values@);
    }
    sorted[values.len() / 2]
}

/// The buy-in price of the pool in `state`: the upper median of its items' values.
pub fn get_buyin_price(state: State) -> (r: i32)
    requires
        state.items@.len() > 0,
    ensures
        r == buyin_price(item_values(state.items@)),
{
    buyin_price_of_items(&state.items)
}

/// The metadata of an NFT, as its contract reports it.
#[derive(Debug, Clone, PartialEq, Eq)]
pub struct Metadata {
    /// optional indentifier
    pub name: Option<String>,
    /// optional description
    pub description: Option<String>,
    /// optional uri to contain an image, additional data fields, etc...
    pub image: Option<String>,
}

/* Crediting accounts */

/// The balance `addr` would have after `amount` is added to it.
pub open spec fn credited(bal: Map<Seq<char>, i32>, addr: Seq<char>, amount: int) -> int {
    balance_or_zero(bal, addr) + amount
}

/// Adding `amount` to the balance of `addr` does not overflow an `i32`.
pub open spec fn credit_in_range(bal: Map<Seq<char>, i32>, addr: Seq<char>, amount: int) -> bool {
    i32::MIN <= credited(bal, addr, amount) <= i32::MAX
}

/// The balances after `amount` is added to `addr`: the change is kept when the new
/// balance is not negative, and refused (nothing changes) otherwise.
pub open spec fn apply_credit(bal: Map<Seq<char>, i32>, addr: Seq<char>, amount: int) -> Map<
    Seq<char>,
    i32,
> {
    if credited(bal, addr, amount) >= 0 {
        bal.insert(addr, credited(bal, addr, amount) as i32)
    } else {
        bal
    }
}

/// A credit that keeps balances non-negative keeps all of them non-negative.
pub proof fn lemma_apply_credit_nonneg(bal: Map<Seq<char>, i32>, addr: Seq<char>, amount: int)
    requires
        all_nonneg(bal),
        credit_in_range(bal, addr, amount),
    ensures
        all_nonneg(apply_credit(bal, addr, amount)),
{
}

/// Whether adding `amount` to the balance of `addr` stays within `i32`.
pub fn credit_fits(store: &Store, addr: &String, amount: i32) -> (r: bool)
    ensures
        r == credit_in_range(store.balances(), addr@, amount as int),
{
    let cur = store.balance_of(addr);
    (cur as i64) + (amount as i64) >= i32::MIN as i64 && (cur as i64) + (amount as i64)
        <= i32::MAX as i64
}

/// The configuration record after an account write to `addr` that happens when
/// `written` holds: the write replaces it when `addr` is its key.
pub open spec fn config_after_write(config: Option<State>, addr: Seq<char>, written: bool) -> Option<
    State,
> {
    if written && addr == config_key() {
        None
    } else {
        config
    }
}

/// What adding `amount` to the funds of `sender` does: the credit is applied
/// (and written) when it leaves the funds non-negative, and refused with
/// `Unauthorized` otherwise.
pub open spec fn change_currency_post(
    old: Store,
    new: Store,
    sender: Seq<char>,
    amount: int,
    r: Result<(), ContractError>,
) -> bool {
    &&& new.config == config_after_write(
        old.config,
        sender,
        credited(old.balances(), sender, amount) >= 0,
    )
    &&& new.balances() == apply_credit(old.balances(), sender, amount)
    &&& (r is Ok <==> credited(old.balances(), sender, amount) >= 0)
    &&& (r matches Err(e) ==> e == ContractError::Unauthorized)
}

/// Adds `amm` to the funds of `sender`; refuses with `Unauthorized` (changing
/// nothing) when they would become negative.
pub fn change_currency(store: &mut Store, sender: String, amm: i32) -> (r: Result<(), ContractError>)
    requires
        credit_in_range(old(store).balances(), sender@, amm as int),
    ensures
        change_currency_post(*old(store), *final(store), sender@, amm as int, r),
{
    let cur = store.balance_of(&sender);
    let next = cur + amm;
    if next < 0 {
        return Err(ContractError::Unauthorized);
    }
    store.save_user(sender, User { currency: next });
    Ok(())
}

/* Items from NFT metadata */

/// The bytes of a metadata's description.
pub open spec fn description_bytes(m: Metadata) -> Seq<u8> {
    encode_utf8(m.description->0@)
}

/// The metadata can be turned into an item: it has a name and a readable description.
pub open spec fn metadata_readable(m: Metadata) -> bool {
    &&& m.name is Some
    &&& m.description is Some
    &&& description_readable(description_bytes(m))
}

/// The trade-ready date a description gives (its first field).
pub open spec fn metadata_trade_ready(m: Metadata) -> Seq<char> {
    decode_utf8(split_field(description_bytes(m), 0)->0)
}

/// The value a description gives (its second field).
pub open spec fn metadata_value(m: Metadata) -> i32 {
    parse_i32(split_field(description_bytes(m), 1)->0)->0
}

/// The owner a description names (its third field), who is credited with the value.
pub open spec fn metadata_owner(m: Metadata) -> Seq<char> {
    decode_utf8(split_field(description_bytes(m), 2)->0)
}

/// `item` is the item that `m` describes for token `tokenid`.
pub open spec fn item_from_metadata(item: Item, m: Metadata, tokenid: String) -> bool {
    &&& item.name == m.name->0
    &&& item.tradeReady@ == metadata_trade_ready(m)
    &&& item.value == metadata_value(m)
    &&& item.tokenid == tokenid
}

/// Whether `m` can be turned into an item.
pub fn is_metadata_readable(m: &Metadata) -> (r: bool)
    ensures
        r == metadata_readable(*m),
{
    match (&m.name, &m.description) {
        (Some(_), Some(d)) => parse_description(d.as_str()).is_some(),
        _ => false,
    }
}

/// Turns the metadata of token `tokenid` into an item, and credits the owner that
/// its description names with the item's value (a credit that would make the
/// owner's funds negative is dropped).
pub fn creat_item_from_metadata(store: &mut Store, metadata: Metadata, tokenid: String) -> (item: Item)
    requires
        metadata_readable(metadata),
        credit_in_range(
            old(store).balances(),
            metadata_owner(metadata),
            metadata_value(metadata) as int,
        ),
    ensures
        item_from_metadata(item, metadata, tokenid),
        final(store).config == config_after_write(
            old(store).config,
            metadata_owner(metadata),
            credited(
                old(store).balances(),
                metadata_owner(metadata),
                metadata_value(metadata) as int,
            ) >= 0,
        ),
        final(store).balances() == apply_credit(
            old(store).balances(),
            metadata_owner(metadata),
            metadata_value(metadata) as int,
        ),
{
    let Metadata { name, description, image: _ } = metadata;
    let disc = description.unwrap();
    let parsed = parse_description(disc.as_str()).unwrap();
    let item = Item { name: name.unwrap(), tradeReady: parsed.trade_ready, value: parsed.value, tokenid };
    let _ = change_currency(store, parsed.owner, item.value);
    item
}

} // verus!
