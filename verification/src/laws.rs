use vstd::prelude::*;
use vstd::multiset::Multiset;
use vstd::relations::sorted_by;

use crate::contract::{
    handle_post, add_funds_post, apply_credits, credits_fit, handle_ready, lootpool_post, receive_credits,
    receive_post, swap_removed, lootpool_ready, drawn_index,
};
use crate::controller::{
    apply_credit, buyin_price, change_currency_post, credit_in_range, credited,
    item_from_metadata, lemma_sorted_values, lemma_value_leq_total, metadata_owner,
    sorted_values, Metadata, metadata_readable, metadata_value, description_bytes,
};
use crate::contract::{receive_ready, initial_state};
use crate::msg::InitMsg;
use crate::state::State;
use crate::draw::loot_draw_value;
use crate::msg::{Env, HandleAnswer, HandleMsg, HandleResponse};
use crate::parse::{all_digits, digits_value, description_readable, first_sep_from, is_sep_at, parse_i32, split_field};
use crate::state::{config_key, state_as_user, all_nonneg, balance_or_zero, item_values, ContractError, Item, Store};

verus! {

broadcast use vstd::seq_lib::group_to_multiset_ensures;

/* Funds */

/// Two changes of an account's funds that are both accepted add up: the account
/// then holds its old funds plus both amounts.
pub proof fn law_accepted_changes_add_up(bal: Map<Seq<char>, i32>, addr: Seq<char>, a: int, b: int)
    requires
        credit_in_range(bal, addr, a),
        credited(bal, addr, a) >= 0,
        credit_in_range(apply_credit(bal, addr, a), addr, b),
        credited(apply_credit(bal, addr, a), addr, b) >= 0,
    ensures
        balance_or_zero(apply_credit(apply_credit(bal, addr, a), addr, b), addr) == balance_or_zero(
            bal,
            addr,
        ) + a + b,
{
}

/// A change of funds that would leave the account negative is refused and changes
/// no balance at all.
pub proof fn law_refused_change_changes_nothing(bal: Map<Seq<char>, i32>, addr: Seq<char>, a: int)
    requires
        credited(bal, addr, a) < 0,
    ensures
        apply_credit(bal, addr, a) == bal,
{
}

/// A change of one account's funds leaves every other account as it was.
pub proof fn law_change_leaves_other_accounts(
    bal: Map<Seq<char>, i32>,
    addr: Seq<char>,
    a: int,
    other: Seq<char>,
)
    requires
        other != addr,
    ensures
        apply_credit(bal, addr, a).contains_key(other) == bal.contains_key(other),
        balance_or_zero(apply_credit(bal, addr, a), other) == balance_or_zero(bal, other),
{
}

proof fn lemma_apply_credits_nonneg(bal: Map<Seq<char>, i32>, cs: Seq<(Seq<char>, int)>)
    requires
        all_nonneg(bal),
        credits_fit(bal, cs),
    ensures
        all_nonneg(apply_credits(bal, cs)),
    decreases cs.len(),
{
    if cs.len() > 0 {
        lemma_apply_credits_nonneg(bal, cs.drop_last());
    }
}

/// No transaction makes any account's funds negative: when every balance is
/// non-negative before a transaction that can be handled, every balance is
/// non-negative after it.
pub proof fn law_funds_stay_nonneg(
    old: Store,
    new: Store,
    env: Env,
    msg: HandleMsg,
    received: Seq<Metadata>,
    r: Result<HandleResponse, ContractError>,
)
    requires
        all_nonneg(old.balances()),
        handle_ready(old, env, msg, received),
        handle_post(old, new, env, msg, received, r),
    ensures
        all_nonneg(new.balances()),
{
    match msg {
        HandleMsg::BatchReceiveNft { token_ids, .. } => {
            if old.config is Some {
                assert(old.balances().contains_key(config_key()));
                lemma_apply_credits_nonneg(old.balances(), receive_credits(received));
            }
        },
        _ => {},
    }
}

/* The loot pool */

/// A won round takes exactly the won item out of the pool: the item was in the
/// pool, and the pool afterwards holds every other item as often as before and
/// one item less. (A sender at the configuration's key is left out: that round
/// ends by writing the sender's account over the configuration record.)
pub proof fn law_round_removes_won_item(
    old: Store,
    new: Store,
    env: Env,
    draw: u32,
    r: Result<HandleResponse, ContractError>,
)
    requires
        old.config matches Some(st) && st.items@.len() > 0,
        env.sender@ != config_key(),
        lootpool_post(old, new, env, draw, r),
        r is Ok,
    ensures
        r->Ok_0.data matches Some(HandleAnswer::WonItem { item }) && {
            let before = old.config->Some_0.items@;
            let after = new.config->Some_0.items@;
            &&& before.contains(item)
            &&& after.len() == before.len() - 1
            &&& after.to_multiset() == before.to_multiset().remove(item)
        },
{
    broadcast use vstd::multiset::group_multiset_axioms;

    let st = old.config->Some_0;
    let s = st.items@;
    let idx = drawn_index(draw, s.len());
    assert(0 <= idx < s.len());
    let item = s[idx];
    assert(s.contains(item));
    let u = s.update(idx, s.last());
    let d = u.drop_last();
    assert(d == swap_removed(s, idx));
    assert(u =~= d.push(s.last()));
    assert(u.to_multiset() == s.to_multiset().insert(s.last()).remove(item));
    assert(u.to_multiset() == d.to_multiset().insert(s.last()));
    assert(s.to_multiset().count(item) > 0);
    assert forall|v: Item| #[trigger] d.to_multiset().count(v) == s.to_multiset().remove(
        item,
    ).count(v) by {
        assert(u.to_multiset().count(v) == d.to_multiset().insert(s.last()).count(v));
        assert(u.to_multiset().count(v) == s.to_multiset().insert(s.last()).remove(item).count(
            v,
        ));
    }
    assert(d.to_multiset() =~= s.to_multiset().remove(item));
}

/// A round the sender cannot pay for is refused and changes nothing; a round the
/// sender can pay for costs exactly the buy-in.
pub proof fn law_round_costs_the_buyin(
    old: Store,
    new: Store,
    env: Env,
    draw: u32,
    r: Result<HandleResponse, ContractError>,
)
    requires
        old.config is Some,
        lootpool_ready(old, env.sender@),
        lootpool_post(old, new, env, draw, r),
    ensures
        r is Err ==> new == old,
        r is Ok ==> balance_or_zero(new.balances(), env.sender@) == balance_or_zero(
            old.balances(),
            env.sender@,
        ) - buyin_price(item_values(old.config->Some_0.items@)),
{
}

/* The buy-in price */

/// The values below `p`.
pub open spec fn below(p: i32) -> spec_fn(i32) -> bool {
    |x: i32| x < p
}

/// The values at most `p`.
pub open spec fn at_most(p: i32) -> spec_fn(i32) -> bool {
    |x: i32| x <= p
}

proof fn lemma_filter_insert_len(m: Multiset<i32>, f: spec_fn(i32) -> bool, x: i32)
    ensures
        m.insert(x).filter(f).len() == m.filter(f).len() + (if f(x) {
            1int
        } else {
            0int
        }),
{
    broadcast use vstd::multiset::group_multiset_axioms;

    if f(x) {
        assert(m.insert(x).filter(f) =~= m.filter(f).insert(x));
    } else {
        assert(m.insert(x).filter(f) =~= m.filter(f));
    }
}

proof fn lemma_multiset_filter_len(s: Seq<i32>, f: spec_fn(i32) -> bool)
    ensures
        s.to_multiset().filter(f).len() == s.filter(f).len(),
    decreases s.len(),
{
    broadcast use vstd::multiset::group_multiset_axioms;

    reveal(Seq::filter);
    if s.len() == 0 {
        assert(s.to_multiset() =~= Multiset::<i32>::empty());
        assert(s.to_multiset().filter(f) =~= Multiset::<i32>::empty());
    } else {
        let t = s.drop_last();
        lemma_multiset_filter_len(t, f);
        assert(s =~= t.push(s.last()));
        lemma_filter_insert_len(t.to_multiset(), f, s.last());
    }
}

proof fn lemma_filter_len_upper(s: Seq<i32>, f: spec_fn(i32) -> bool, k: int)
    requires
        0 <= k,
        forall|i: int| k <= i < s.len() ==> !f(#[trigger] s[i]),
    ensures
        s.filter(f).len() <= k,
    decreases s.len(),
{
    reveal(Seq::filter);
    if s.len() > k {
        let t = s.drop_last();
        assert(!f(s[s.len() - 1]));
        assert forall|i: int| k <= i < t.len() implies !f(#[trigger] t[i]) by {
            assert(t[i] == s[i]);
        }
        lemma_filter_len_upper(t, f, k);
    } else {
        s.lemma_filter_len(f);
    }
}

proof fn lemma_filter_len_lower(s: Seq<i32>, f: spec_fn(i32) -> bool, k: int)
    requires
        0 <= k <= s.len(),
        forall|i: int| 0 <= i < k ==> f(#[trigger] s[i]),
    ensures
        s.filter(f).len() >= k,
    decreases s.len(),
{
    reveal(Seq::filter);
    if s.len() > 0 {
        let t = s.drop_last();
        if k == s.len() {
            assert forall|i: int| 0 <= i < k - 1 implies f(#[trigger] t[i]) by {
                assert(t[i] == s[i]);
            }
            lemma_filter_len_lower(t, f, k - 1);
            assert(f(s[s.len() - 1]));
        } else {
            assert forall|i: int| 0 <= i < k implies f(#[trigger] t[i]) by {
                assert(t[i] == s[i]);
            }
            lemma_filter_len_lower(t, f, k);
        }
    }
}

/// The buy-in price of a non-empty pool is one of its items' values, and it is
/// the upper median: fewer than half (at most `len / 2`) of the values lie below
/// it, and more than `len / 2` of them are at most it.
pub proof fn law_buyin_is_upper_median(values: Seq<i32>)
    requires
        values.len() > 0,
    ensures
        values.contains(buyin_price(values)),
        values.to_multiset().filter(below(buyin_price(values))).len() <= values.len() / 2,
        values.to_multiset().filter(at_most(buyin_price(values))).len() > values.len() / 2,
{
    let t = sorted_values(values);
    let k = values.len() as int / 2;
    let p = buyin_price(values);
    lemma_sorted_values(values);
    assert(p == t[k]);
    assert(t.to_multiset().count(p) > 0);
    assert(values.to_multiset().count(p) > 0);
    assert forall|i: int| k <= i < t.len() implies !below(p)(#[trigger] t[i]) by {
        if i > k {
            assert(sorted_by(t, crate::controller::value_leq()));
            assert(crate::controller::value_leq()(t[k], t[i]));
        }
    }
    lemma_filter_len_upper(t, below(p), k);
    assert forall|i: int| 0 <= i < k + 1 implies at_most(p)(#[trigger] t[i]) by {
        if i < k {
            assert(crate::controller::value_leq()(t[i], t[k]));
        }
    }
    lemma_filter_len_lower(t, at_most(p), k + 1);
    lemma_multiset_filter_len(t, below(p));
    lemma_multiset_filter_len(t, at_most(p));
}

/// The buy-in price depends only on how often each value occurs, not on the
/// order of the items: pools whose values are permutations of each other have
/// the same price.
pub proof fn law_buyin_depends_on_multiset(v1: Seq<i32>, v2: Seq<i32>)
    requires
        v1.to_multiset() == v2.to_multiset(),
    ensures
        v1.len() == v2.len(),
        buyin_price(v1) == buyin_price(v2),
{
    lemma_sorted_values(v1);
    lemma_sorted_values(v2);
    lemma_value_leq_total();
    vstd::seq_lib::lemma_sorted_unique(sorted_values(v1), sorted_values(v2), crate::controller::value_leq());
}

/* Laws relating operations */

/// Adding funds as a transaction does what `change_currency` does to the
/// sender: the same balances, the same configuration record, success in the
/// same cases and the same error otherwise.
pub proof fn law_change_funds_is_change_currency(
    old: Store,
    new1: Store,
    new2: Store,
    sender: Seq<char>,
    amount: int,
    r1: Result<HandleResponse, ContractError>,
    r2: Result<(), ContractError>,
)
    requires
        add_funds_post(old, new1, sender, amount, r1),
        change_currency_post(old, new2, sender, amount, r2),
    ensures
        new1.balances() == new2.balances(),
        new1.config == new2.config,
        r1 is Ok <==> r2 is Ok,
        r1 matches Err(e) ==> r2 == Err::<(), ContractError>(e),
{
}

/// Handling a transaction does exactly what the operation it names does.
pub proof fn law_handle_dispatches(
    old: Store,
    new: Store,
    env: Env,
    msg: HandleMsg,
    received: Seq<Metadata>,
    r: Result<HandleResponse, ContractError>,
)
    ensures
        msg matches HandleMsg::AddFunds { ammount } ==> (handle_post(
            old,
            new,
            env,
            msg,
            received,
            r,
        ) == add_funds_post(old, new, env.sender@, ammount as int, r)),
        msg matches HandleMsg::BatchReceiveNft { token_ids, .. } ==> (handle_post(
            old,
            new,
            env,
            msg,
            received,
            r,
        ) == receive_post(old, new, token_ids@, received, r)),
        msg is StartLootPool ==> (handle_post(old, new, env, msg, received, r) == lootpool_post(
            old,
            new,
            env,
            loot_draw_value(),
            r,
        )),
{
}

/// The outcome of a loot pool round depends only on the sender and the stored
/// state: two rounds from the same store by the same sender, whatever else their
/// environments hold, answer alike and leave the same balances and pool.
pub proof fn law_round_depends_on_sender_and_store(
    old: Store,
    new1: Store,
    new2: Store,
    env1: Env,
    env2: Env,
    r1: Result<HandleResponse, ContractError>,
    r2: Result<HandleResponse, ContractError>,
)
    requires
        env1.sender == env2.sender,
        lootpool_post(old, new1, env1, loot_draw_value(), r1),
        lootpool_post(old, new2, env2, loot_draw_value(), r2),
    ensures
        r1 is Ok <==> r2 is Ok,
        r1 is Err ==> r1 == r2 && new1 == new2,
        r1 is Ok ==> r1->Ok_0.data == r2->Ok_0.data && r1->Ok_0.messages@ == r2->Ok_0.messages@,
        new1.balances() == new2.balances(),
        new1.config is Some <==> new2.config is Some,
        new1.config matches Some(c1) ==> new2.config matches Some(c2) && c1.admin == c2.admin
            && c1.code_hash == c2.code_hash && c1.nft == c2.nft && c1.items@ == c2.items@,
{
}

proof fn lemma_apply_credits_concat(
    bal: Map<Seq<char>, i32>,
    x: Seq<(Seq<char>, int)>,
    y: Seq<(Seq<char>, int)>,
)
    ensures
        apply_credits(bal, x + y) == apply_credits(apply_credits(bal, x), y),
    decreases y.len(),
{
    if y.len() == 0 {
        assert(x + y =~= x);
    } else {
        lemma_apply_credits_concat(bal, x, y.drop_last());
        assert((x + y).drop_last() =~= x + y.drop_last());
        assert((x + y).last() == y.last());
    }
}

proof fn lemma_apply_credits_insert_other(
    bal: Map<Seq<char>, i32>,
    cs: Seq<(Seq<char>, int)>,
    key: Seq<char>,
    v: i32,
)
    requires
        forall|i: int| 0 <= i < cs.len() ==> (#[trigger] cs[i]).0 != key,
    ensures
        apply_credits(bal.insert(key, v), cs) == apply_credits(bal, cs).insert(key, v),
    decreases cs.len(),
{
    if cs.len() > 0 {
        let t = cs.drop_last();
        assert forall|i: int| 0 <= i < t.len() implies (#[trigger] t[i]).0 != key by {
            assert(t[i] == cs[i]);
        }
        lemma_apply_credits_insert_other(bal, t, key, v);
        let m = apply_credits(bal, t);
        assert(cs.last() == cs[cs.len() - 1]);
        let k = cs.last().0;
        assert(k != key);
        assert(apply_credit(m.insert(key, v), k, cs.last().1) =~= apply_credit(
            m,
            k,
            cs.last().1,
        ).insert(key, v));
    }
}

/// Receiving a batch of tokens ends in the same storage as receiving its first
/// part and then its second part, when no description names the configuration's
/// key as owner: the same balances, the same settings, and the same item, made
/// from the same metadata and token, at each position of the pool.
pub proof fn law_receive_in_two_batches(
    s0: Store,
    s1: Store,
    s2: Store,
    t: Store,
    ids_a: Seq<String>,
    ids_b: Seq<String>,
    ma: Seq<Metadata>,
    mb: Seq<Metadata>,
    r1: Result<HandleResponse, ContractError>,
    r2: Result<HandleResponse, ContractError>,
    r: Result<HandleResponse, ContractError>,
)
    requires
        s0.config is Some,
        ma.len() == ids_a.len(),
        mb.len() == ids_b.len(),
        forall|i: int| 0 <= i < ma.len() ==> metadata_owner(#[trigger] ma[i]) != config_key(),
        forall|i: int| 0 <= i < mb.len() ==> metadata_owner(#[trigger] mb[i]) != config_key(),
        receive_post(s0, s1, ids_a, ma, r1),
        receive_post(s1, s2, ids_b, mb, r2),
        receive_post(s0, t, ids_a + ids_b, ma + mb, r),
    ensures
        r1 is Ok && r2 is Ok && r is Ok,
        s2.balances() == t.balances(),
        s2.config matches Some(c2) && t.config matches Some(ct) && {
            let base = s0.config->Some_0.items@.len();
            &&& c2.admin == ct.admin
            &&& c2.code_hash == ct.code_hash
            &&& c2.nft == ct.nft
            &&& c2.items@.len() == ct.items@.len()
            &&& c2.items@.subrange(0, base as int) == ct.items@.subrange(0, base as int)
            &&& forall|i: int|
                0 <= i < ids_a.len() + ids_b.len() ==> item_from_metadata(
                    #[trigger] c2.items@[base + i],
                    (ma + mb)[i],
                    (ids_a + ids_b)[i],
                ) && item_from_metadata(ct.items@[base + i], (ma + mb)[i], (ids_a + ids_b)[i])
        },
{
    let st0 = s0.config->Some_0;
    let st1 = s1.config->Some_0;
    let c = config_key();
    let v = state_as_user(st0);
    let ca = receive_credits(ma);
    let cb = receive_credits(mb);
    assert(receive_credits(ma + mb) =~= ca + cb);
    assert forall|i: int| 0 <= i < cb.len() implies (#[trigger] cb[i]).0 != c by {
        assert(metadata_owner(mb[i]) != c);
    }
    assert(state_as_user(st1) == v);
    lemma_apply_credits_insert_other(apply_credits(s0.balances(), ca), cb, c, v);
    lemma_apply_credits_concat(s0.balances(), ca, cb);
    assert(s2.balances() =~= t.balances());
    let base = st0.items@.len();
    let c2 = s2.config->Some_0;
    let ct = t.config->Some_0;
    assert(c2.items@.subrange(0, base as int) =~= st0.items@) by {
        assert(c2.items@.subrange(0, st1.items@.len() as int) == st1.items@);
        assert forall|k: int| 0 <= k < base implies c2.items@[k] == st0.items@[k] by {
            assert(c2.items@[k] == c2.items@.subrange(0, st1.items@.len() as int)[k]);
            assert(st1.items@[k] == st1.items@.subrange(0, base as int)[k]);
        }
    }
    assert forall|i: int|
        0 <= i < ids_a.len() + ids_b.len() implies item_from_metadata(
        #[trigger] c2.items@[base + i],
        (ma + mb)[i],
        (ids_a + ids_b)[i],
    ) && item_from_metadata(ct.items@[base + i], (ma + mb)[i], (ids_a + ids_b)[i]) by {
        if i < ids_a.len() {
            assert(item_from_metadata(st1.items@[base + i], ma[i], ids_a[i]));
            assert(c2.items@[base + i] == c2.items@.subrange(0, st1.items@.len() as int)[base
                + i]);
        } else {
            let j = i - ids_a.len();
            assert(item_from_metadata(c2.items@[st1.items@.len() + j], mb[j], ids_b[j]));
        }
        assert(item_from_metadata(
            ct.items@[base + i],
            (ma + mb)[i],
            (ids_a + ids_b)[i],
        ));
    }
}

/* Descriptions */

/// The `%%` separator.
pub open spec fn separator() -> Seq<u8> {
    seq![0x25u8, 0x25u8]
}

/// `s` holds no `%` byte.
pub open spec fn no_percent(s: Seq<u8>) -> bool {
    forall|i: int| 0 <= i < s.len() ==> #[trigger] s[i] != 0x25
}

proof fn lemma_first_sep_at(s: Seq<u8>, i: int, j: int)
    requires
        0 <= i <= j,
        is_sep_at(s, j),
        forall|k: int| i <= k < j ==> !#[trigger] is_sep_at(s, k),
    ensures
        first_sep_from(s, i) == Some(j),
    decreases j - i,
{
    if i < j {
        assert(!is_sep_at(s, i));
        lemma_first_sep_at(s, i + 1, j);
    }
}

proof fn lemma_no_sep(s: Seq<u8>, i: int)
    requires
        0 <= i,
        no_percent(s),
    ensures
        first_sep_from(s, i) is None,
    decreases s.len() - i,
{
    if i + 1 < s.len() {
        assert(s[i] != 0x25);
        lemma_no_sep(s, i + 1);
    }
}

proof fn lemma_split_joined(a: Seq<u8>, rest: Seq<u8>)
    requires
        no_percent(a),
    ensures
        first_sep_from(a + separator() + rest, 0) == Some(a.len() as int),
        (a + separator() + rest).subrange(0, a.len() as int) == a,
        (a + separator() + rest).subrange(
            a.len() as int + 2,
            (a + separator() + rest).len() as int,
        ) == rest,
{
    let s = a + separator() + rest;
    assert forall|k: int| 0 <= k < a.len() implies !#[trigger] is_sep_at(s, k) by {
        assert(s[k] == a[k]);
    }
    lemma_first_sep_at(s, 0, a.len() as int);
    assert(s.subrange(0, a.len() as int) =~= a);
    assert(s.subrange(a.len() as int + 2, s.len() as int) =~= rest);
}

/// A description written as `date%%value%%owner`, where none of the three parts
/// holds a `%`, splits back into those three parts; it is readable exactly when
/// `value` is the decimal text of an `i32`.
pub proof fn law_description_round_trip(date: Seq<u8>, value: Seq<u8>, owner_bytes: Seq<u8>)
    requires
        no_percent(date),
        no_percent(value),
        no_percent(owner_bytes),
    ensures
        ({
            let d = date + separator() + value + separator() + owner_bytes;
            &&& split_field(d, 0) == Some(date)
            &&& split_field(d, 1) == Some(value)
            &&& split_field(d, 2) == Some(owner_bytes)
            &&& description_readable(d) == parse_i32(value) is Some
        }),
{
    let tail = value + separator() + owner_bytes;
    let d = date + separator() + value + separator() + owner_bytes;
    assert(d =~= date + separator() + tail);
    lemma_split_joined(date, tail);
    lemma_split_joined(value, owner_bytes);
    lemma_no_sep(owner_bytes, 0);
    assert(split_field(d, 1) == split_field(tail, 0));
    assert(split_field(d, 2) == split_field(tail, 1));
    assert(split_field(tail, 1) == split_field(owner_bytes, 0));
}

/* What the operations are for */

/// The items whose value lies below `p`.
pub open spec fn item_below(p: i32) -> spec_fn(Item) -> bool {
    |it: Item| it.value < p
}

/// The items whose value is at most `p`.
pub open spec fn item_at_most(p: i32) -> spec_fn(Item) -> bool {
    |it: Item| it.value <= p
}

proof fn lemma_item_filter_len(items: Seq<Item>, f: spec_fn(i32) -> bool, g: spec_fn(Item) -> bool)
    requires
        forall|it: Item| #[trigger] g(it) == f(it.value),
    ensures
        item_values(items).filter(f).len() == items.filter(g).len(),
    decreases items.len(),
{
    reveal(Seq::filter);
    if items.len() > 0 {
        let t = items.drop_last();
        lemma_item_filter_len(t, f, g);
        assert(item_values(items).drop_last() =~= item_values(t));
        assert(item_values(items).last() == items.last().value);
        assert(g(items.last()) == f(items.last().value));
    }
}

/// The buy-in of a non-empty pool is the upper median of its items' values, every
/// item counted (equal values as often as they occur): it is the value of one of
/// the items, at most `len / 2` items are worth less, and more than `len / 2` items
/// are worth at most it.
pub proof fn law_buyin_counts_every_item(items: Seq<Item>)
    requires
        items.len() > 0,
    ensures
        ({
            let p = buyin_price(item_values(items));
            &&& exists|i: int| 0 <= i < items.len() && #[trigger] items[i].value == p
            &&& items.filter(item_below(p)).len() <= items.len() / 2
            &&& items.filter(item_at_most(p)).len() > items.len() / 2
        }),
{
    let v = item_values(items);
    let p = buyin_price(v);
    assert(v.len() == items.len());
    law_buyin_is_upper_median(v);
    lemma_multiset_filter_len(v, below(p));
    lemma_multiset_filter_len(v, at_most(p));
    assert forall|it: Item| #[trigger] item_below(p)(it) == below(p)(it.value) by {}
    assert forall|it: Item| #[trigger] item_at_most(p)(it) == at_most(p)(it.value) by {}
    lemma_item_filter_len(items, below(p), item_below(p));
    lemma_item_filter_len(items, at_most(p), item_at_most(p));
    let k = choose|k: int| 0 <= k < v.len() && v[k] == p;
    assert(items[k].value == p);
}

/// A round on a set-up, non-empty pool succeeds exactly when the sender's funds
/// cover the buy-in, whatever item the draw picks: the sender's funds then drop by
/// exactly the buy-in, the item at position `draw % len` is the one won and sent to
/// the sender, and every other item stays in the pool, the last one moving into
/// the won item's place.
pub proof fn law_round_succeeds_when_funds_cover_buyin(
    old: Store,
    new: Store,
    env: Env,
    draw: u32,
    r: Result<HandleResponse, ContractError>,
)
    requires
        old.config matches Some(st) && st.items@.len() > 0,
        lootpool_ready(old, env.sender@),
        lootpool_post(old, new, env, draw, r),
    ensures
        ({
            let st = old.config->Some_0;
            let items = st.items@;
            let n = items.len() as int;
            let funds = balance_or_zero(old.balances(), env.sender@);
            let price = buyin_price(item_values(items));
            let idx = (draw as int) % n;
            &&& (r is Ok <==> funds >= price)
            &&& (r is Err ==> r == Err::<HandleResponse, ContractError>(ContractError::Unauthorized)
                && new == old)
            &&& (r is Ok ==> {
                &&& balance_or_zero(new.balances(), env.sender@) == funds - price
                &&& r->Ok_0.data == Some(HandleAnswer::WonItem { item: items[idx] })
                &&& r->Ok_0.messages@.len() == 1
                &&& (env.sender@ != config_key() ==> {
                    let after = new.config->Some_0.items@;
                    &&& new.config is Some
                    &&& after.len() == n - 1
                    &&& forall|k: int|
                        0 <= k < n - 1 && k != idx ==> #[trigger] after[k] == items[k]
                    &&& idx < n - 1 ==> after[idx] == items[n - 1]
                })
            })
        }),
{
}

/// A change of funds is applied exactly when the funds stay non-negative
/// (withdrawing everything, down to zero, included): it then answers `Ok` and the
/// account holds its old funds plus the amount; otherwise it answers
/// `Unauthorized` and no balance changes. Both as the `change_currency` step and
/// as the `AddFunds` transaction.
pub proof fn law_change_applied_iff_funds_stay_nonneg(
    old: Store,
    new1: Store,
    new2: Store,
    sender: Seq<char>,
    amount: int,
    r1: Result<(), ContractError>,
    r2: Result<HandleResponse, ContractError>,
)
    requires
        credit_in_range(old.balances(), sender, amount),
        change_currency_post(old, new1, sender, amount, r1),
        add_funds_post(old, new2, sender, amount, r2),
    ensures
        (r1 is Ok <==> balance_or_zero(old.balances(), sender) + amount >= 0),
        (r2 is Ok <==> balance_or_zero(old.balances(), sender) + amount >= 0),
        r1 is Ok ==> balance_or_zero(new1.balances(), sender) == balance_or_zero(
            old.balances(),
            sender,
        ) + amount,
        r2 is Ok ==> balance_or_zero(new2.balances(), sender) == balance_or_zero(
            old.balances(),
            sender,
        ) + amount,
        r1 is Err ==> r1 == Err::<(), ContractError>(ContractError::Unauthorized)
            && new1.balances() == old.balances(),
        r2 is Err ==> r2 == Err::<HandleResponse, ContractError>(ContractError::Unauthorized)
            && new2.balances() == old.balances(),
{
}

/// Whether a token's metadata can be turned into an item does not depend on its
/// image: only the name and the description are read.
pub proof fn law_readability_ignores_image(m: Metadata, image: Option<String>)
    ensures
        metadata_readable(m) == metadata_readable(
            Metadata { name: m.name, description: m.description, image },
        ),
        metadata_value(m) == metadata_value(
            Metadata { name: m.name, description: m.description, image },
        ),
        metadata_owner(m) == metadata_owner(
            Metadata { name: m.name, description: m.description, image },
        ),
{
}

/// Metadata with a name and a description written `date%%value%%owner` (no `%` in
/// the three parts) whose value is the decimal text of an `i32` can be turned into
/// an item, whatever its image; its value and owner are the ones written.
pub proof fn law_well_written_metadata_is_readable(
    m: Metadata,
    date: Seq<u8>,
    value: Seq<u8>,
    owner_bytes: Seq<u8>,
)
    requires
        m.name is Some,
        m.description is Some,
        description_bytes(m) == date + separator() + value + separator() + owner_bytes,
        no_percent(date),
        no_percent(value),
        no_percent(owner_bytes),
        parse_i32(value) is Some,
    ensures
        metadata_readable(m),
        metadata_value(m) == parse_i32(value)->0,
{
    law_description_round_trip(date, value, owner_bytes);
}

/// Whether a batch of tokens can be received does not depend on the tokens'
/// images.
pub proof fn law_receive_ready_ignores_images(
    store: Store,
    ids: Seq<String>,
    metas: Seq<Metadata>,
    metas2: Seq<Metadata>,
)
    requires
        metas2.len() == metas.len(),
        forall|i: int|
            0 <= i < metas.len() ==> (#[trigger] metas2[i]).name == metas[i].name
                && metas2[i].description == metas[i].description,
    ensures
        receive_ready(store, ids, metas) == receive_ready(store, ids, metas2),
{
    assert(crate::contract::receive_credits(metas) =~= crate::contract::receive_credits(metas2))
        by {
        assert forall|i: int| 0 <= i < metas.len() implies metadata_owner(metas[i])
            == metadata_owner(metas2[i]) && metadata_value(metas[i]) == metadata_value(
            metas2[i],
        ) by {
            assert(description_bytes(metas[i]) == description_bytes(metas2[i]));
        }
    }
    if store.config is Some && receive_ready(store, ids, metas) {
        assert forall|i: int| 0 <= i < metas2.len() implies #[trigger] metadata_readable(
            metas2[i],
        ) by {
            assert(metadata_readable(metas[i]));
            assert(description_bytes(metas[i]) == description_bytes(metas2[i]));
        }
    }
    if store.config is Some && receive_ready(store, ids, metas2) {
        assert forall|i: int| 0 <= i < metas.len() implies #[trigger] metadata_readable(
            metas[i],
        ) by {
            assert(metadata_readable(metas2[i]));
            assert(description_bytes(metas[i]) == description_bytes(metas2[i]));
        }
    }
}

/// A round can run on every set-up pool of at least one item (a single item
/// included) whose size fits a `u32`, when paying the buy-in does not overflow the
/// sender's funds; before setup it can always be asked for (it fails without
/// changing anything).
pub proof fn law_round_ready_on_any_nonempty_pool(store: Store, sender: Seq<char>)
    requires
        store.config matches Some(st) ==> {
            &&& 1 <= st.items@.len() <= u32::MAX
            &&& i32::MIN <= balance_or_zero(store.balances(), sender) - buyin_price(
                item_values(st.items@),
            ) <= i32::MAX
        },
    ensures
        lootpool_ready(store, sender),
{
}

/// Setting up writes the state the message describes: the sender as admin, the
/// NFT contract's address and code hash as given, and an empty pool.
pub proof fn law_setup_writes_message(st: State, env: Env, msg: InitMsg)
    requires
        initial_state(st, env, msg),
    ensures
        st.admin == env.sender,
        st.code_hash == msg.code_hash,
        st.nft == msg.address,
        st.items@.len() == 0,
{
}

/* Reading numbers and balances */

/// Every byte of `s` is an ASCII decimal digit (stated byte by byte).
pub open spec fn decimal_bytes(s: Seq<u8>) -> bool {
    forall|i: int| 0 <= i < s.len() ==> 0x30 <= #[trigger] s[i] <= 0x39
}

/// Reading decimal numbers: a leading `+` changes nothing, a leading `-` negates,
/// and appending a digit multiplies by ten and adds the digit, as long as the
/// result fits an `i32`.
pub proof fn law_decimal_reading(s: Seq<u8>, d: u8)
    requires
        s.len() > 0,
        decimal_bytes(s),
        0x30 <= d <= 0x39,
    ensures
        parse_i32(seq![0x2bu8] + s) == parse_i32(s),
        parse_i32(s) matches Some(v) ==> parse_i32(seq![0x2du8] + s) == Some((-v) as i32),
        parse_i32(s) matches Some(v) ==> (v as int) * 10 + (d - 0x30) <= i32::MAX ==> parse_i32(
            s + seq![d],
        ) == Some(((v as int) * 10 + (d - 0x30)) as i32),
{
    let plus = seq![0x2bu8] + s;
    let minus = seq![0x2du8] + s;
    let longer = s + seq![d];
    assert(plus.drop_first() =~= s);
    assert(minus.drop_first() =~= s);
    assert(longer.drop_last() =~= s);
    assert(all_digits(s) == decimal_bytes(s));
    assert(all_digits(longer)) by {
        assert forall|i: int| 0 <= i < longer.len() implies crate::parse::is_digit(
            #[trigger] longer[i],
        ) by {
            if i < s.len() {
                assert(longer[i] == s[i]);
            }
        }
    }
    assert(s[0] != 0x2b && s[0] != 0x2d);
    assert(longer[0] == s[0]);
    assert(digits_value(longer) == digits_value(s) * 10 + (d - 0x30) as nat);
}

/// An address without a record reads zero funds, and a written balance reads back
/// exactly.
pub proof fn law_balance_reads(bal: Map<Seq<char>, i32>, addr: Seq<char>, v: i32)
    ensures
        !bal.contains_key(addr) ==> balance_or_zero(bal, addr) == 0,
        balance_or_zero(bal.insert(addr, v), addr) == v,
{
}

} // verus!
