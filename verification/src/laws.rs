//! The laws of the settlement engine, each proved of the settlement
//! model that `Ledger::settle` is verified to follow: no double spend,
//! failure atomicity, amount conservation, lineage completeness,
//! pagination completeness and statistics windowing.

use vstd::prelude::*;
use crate::types::{
    CurrencyRecordV, CurrencyStatus, CurrencyUnitV, ExchangeRecordV, LedgerError, TransferV,
};
use crate::ledger::{
    LedgerV, destroyed_record, edges_for_output, find_currency, insert_outputs,
    lemma_find_currency_props, lemma_find_exchange_props, lemma_sum_units_drop_first,
    lemma_sum_units_nonneg, lemma_sum_records_nonneg, new_edges, process_inputs, settle_model,
    settle_post, spent_record, sum_records, sum_units, unique_currencies, unit_ids,
};
use vstd::arithmetic::mul::lemma_mul_is_distributive_add_other_way;
use vstd::seq_lib::lemma_multiset_commutative;
use crate::query::{
    CurrencyFilterV, TransactionFilterV, filtered_currencies, filtered_exchanges, in_window,
    page_slice, sort_desc, sort_desc_ex, sorted_insert_desc, sorted_insert_desc_ex,
    status_window_total, window_exchange_count,
};

verus! {

/// A step of input processing keeps a destroyed record destroyed: once
/// some record of `(id, uk)` is destroyed, processing any input list
/// fails.
proof fn lemma_process_inputs_destroyed_fails(
    cur: Seq<CurrencyRecordV>,
    uk: Seq<char>,
    txid: Seq<char>,
    ins: Seq<CurrencyUnitV>,
    now: u64,
    id: Seq<char>,
)
    requires
        unique_currencies(cur),
        exists|i: int|
            0 <= i < cur.len() && (#[trigger] cur[i]).currency_id == id && cur[i].user_key == uk
                && cur[i].status == CurrencyStatus::Destroyed,
        exists|k: int| 0 <= k < ins.len() && (#[trigger] ins[k]).id == id,
    ensures
        process_inputs(cur, uk, txid, ins, now) is None,
    decreases ins.len(),
{
    let i = choose|i: int|
        0 <= i < cur.len() && (#[trigger] cur[i]).currency_id == id && cur[i].user_key == uk
            && cur[i].status == CurrencyStatus::Destroyed;
    let k = choose|k: int| 0 <= k < ins.len() && (#[trigger] ins[k]).id == id;
    let u = ins[0];
    let f = find_currency(cur, u.id, uk);
    lemma_find_currency_props(cur, u.id, uk);
    if u.id == id {
        // the lookup finds the unit, and by uniqueness it finds the
        // destroyed record itself
        assert(f != -1);
        assert(cur[f].currency_id == id && cur[f].user_key == uk);
        assert(f == i);
        assert(cur[f].status == CurrencyStatus::Destroyed);
    } else {
        assert(k >= 1);
        assert(ins.drop_first()[k - 1] == ins[k]);
        if f < 0 {
            let r = destroyed_record(u, uk, txid, now);
            let cur1 = cur.push(r);
            assert(cur1[i] == cur[i]);
            assert forall|a: int, b: int| 0 <= a < b < cur1.len() implies !((
            #[trigger] cur1[a]).currency_id == (#[trigger] cur1[b]).currency_id && cur1[a].user_key
                == cur1[b].user_key) by {
                if b == cur.len() {
                    assert(cur1[b] == r);
                    assert(cur1[a] == cur[a]);
                }
            }
            lemma_process_inputs_destroyed_fails(cur1, uk, txid, ins.drop_first(), now, id);
        } else if cur[f].status == CurrencyStatus::Destroyed {
        } else {
            let r = spent_record(cur[f], u, txid, now);
            let cur1 = cur.update(f, r);
            assert(cur[f].currency_id == u.id);
            assert(f != i);
            assert(cur1[i] == cur[i]);
            assert forall|a: int, b: int| 0 <= a < b < cur1.len() implies !((
            #[trigger] cur1[a]).currency_id == (#[trigger] cur1[b]).currency_id && cur1[a].user_key
                == cur1[b].user_key) by {
                assert(cur1[a].currency_id == cur[a].currency_id && cur1[a].user_key
                    == cur[a].user_key);
                assert(cur1[b].currency_id == cur[b].currency_id && cur1[b].user_key
                    == cur[b].user_key);
            }
            lemma_process_inputs_destroyed_fails(cur1, uk, txid, ins.drop_first(), now, id);
        }
    }
}

/// Law (no double spend): once a currency record is destroyed, any
/// settlement that names its unit among the inputs fails with the
/// double-spend error — and, by `settle`'s contract, leaves the ledger
/// unchanged.
pub proof fn lemma_no_double_spend(
    l: LedgerV,
    uk: Seq<char>,
    t: TransferV,
    outs: Seq<CurrencyUnitV>,
    now: u64,
    i: int,
    k: int,
)
    requires
        l.wf(),
        0 <= i < l.currencies.len(),
        0 <= k < t.inputs.len(),
        l.currencies[i].currency_id == t.inputs[k].id,
        l.currencies[i].user_key == uk,
        l.currencies[i].status == CurrencyStatus::Destroyed,
    ensures
        settle_model(l, uk, t, outs, now) == Result::<
            (LedgerV, Seq<Seq<char>>),
            LedgerError,
        >::Err(LedgerError::DoubleSpend),
{
    let id = t.inputs[k].id;
    assert(0 <= i < l.currencies.len() && l.currencies[i].currency_id == id
        && l.currencies[i].user_key == uk && l.currencies[i].status == CurrencyStatus::Destroyed);
    assert(0 <= k < t.inputs.len() && t.inputs[k].id == id);
    lemma_process_inputs_destroyed_fails(l.currencies, uk, t.id, t.inputs, now, id);
}

/// Law (atomicity): a settlement that fails — at input processing,
/// output insertion, or log-write time — leaves the ledger exactly as
/// it was.
pub proof fn lemma_atomic_failure(
    pre: LedgerV,
    post: LedgerV,
    uk: Seq<char>,
    t: TransferV,
    outs: Seq<CurrencyUnitV>,
    now: u64,
    r: Result<Seq<Seq<char>>, LedgerError>,
)
    requires
        settle_post(pre, post, uk, t, outs, now, r),
        r is Err,
    ensures
        post == pre,
{
}


/// One output is linked to every input.
proof fn lemma_edges_for_output_len(o: Seq<char>, ins: Seq<Seq<char>>, uk: Seq<char>, now: u64)
    ensures
        edges_for_output(o, ins, uk, now).len() == ins.len(),
    decreases ins.len(),
{
    if ins.len() != 0 {
        lemma_edges_for_output_len(o, ins.drop_last(), uk, now);
    }
}

/// A settlement writes one edge per (output, input) pair.
proof fn lemma_new_edges_len(outs: Seq<Seq<char>>, ins: Seq<Seq<char>>, uk: Seq<char>, now: u64)
    ensures
        new_edges(outs, ins, uk, now).len() == outs.len() * ins.len(),
    decreases outs.len(),
{
    if outs.len() != 0 {
        lemma_new_edges_len(outs.drop_last(), ins, uk, now);
        lemma_edges_for_output_len(outs.last(), ins, uk, now);
        lemma_mul_is_distributive_add_other_way(
            ins.len() as int,
            outs.len() as int - 1,
            1,
        );
    }
}

/// With no inputs there is nothing to link.
proof fn lemma_new_edges_empty_inputs(outs: Seq<Seq<char>>, ins: Seq<Seq<char>>, uk: Seq<char>, now: u64)
    requires
        ins.len() == 0,
    ensures
        new_edges(outs, ins, uk, now) == Seq::<crate::types::LineageEdgeV>::empty(),
    decreases outs.len(),
{
    if outs.len() != 0 {
        lemma_new_edges_empty_inputs(outs.drop_last(), ins, uk, now);
        assert(new_edges(outs.drop_last(), ins, uk, now) + edges_for_output(outs.last(), ins, uk, now)
            =~= Seq::<crate::types::LineageEdgeV>::empty());
    }
}

/// Law (lineage completeness): a successful settlement with inputs `I`
/// and outputs `O` writes exactly `|O| × |I|` lineage edges — none at
/// all when there are no inputs.
pub proof fn lemma_lineage_completeness(
    l: LedgerV,
    uk: Seq<char>,
    t: TransferV,
    outs: Seq<CurrencyUnitV>,
    now: u64,
)
    requires
        settle_model(l, uk, t, outs, now) is Ok,
    ensures
        ({
            let p = settle_model(l, uk, t, outs, now).unwrap();
            &&& p.0.lineage.len() == l.lineage.len() + outs.len() * t.inputs.len()
            &&& t.inputs.len() == 0 ==> p.0.lineage == l.lineage
        }),
{
    lemma_new_edges_len(unit_ids(outs), unit_ids(t.inputs), uk, now);
    if t.inputs.len() == 0 {
        lemma_new_edges_empty_inputs(unit_ids(outs), unit_ids(t.inputs), uk, now);
        assert(l.lineage + new_edges(unit_ids(outs), unit_ids(t.inputs), uk, now) =~= l.lineage);
    }
}

/// Total amount over the caller's circulating records that carry the
/// given settlement.
pub open spec fn circulating_txid_total(
    s: Seq<CurrencyRecordV>,
    txid: Seq<char>,
    uk: Seq<char>,
) -> int
    decreases s.len(),
{
    if s.len() == 0 {
        0
    } else {
        circulating_txid_total(s.drop_last(), txid, uk) + if s.last().transaction_id == txid
            && s.last().user_key == uk && s.last().status == CurrencyStatus::Circulating {
            s.last().amount as int
        } else {
            0
        }
    }
}

/// A store without circulating records of this settlement sums to
/// nothing.
proof fn lemma_circ_total_zero(s: Seq<CurrencyRecordV>, txid: Seq<char>, uk: Seq<char>)
    requires
        forall|i: int|
            0 <= i < s.len() ==> !((#[trigger] s[i]).transaction_id == txid && s[i].user_key == uk
                && s[i].status == CurrencyStatus::Circulating),
    ensures
        circulating_txid_total(s, txid, uk) == 0,
    decreases s.len(),
{
    if s.len() != 0 {
        assert(forall|i: int| 0 <= i < s.drop_last().len() ==> s.drop_last()[i] == s[i]);
        lemma_circ_total_zero(s.drop_last(), txid, uk);
    }
}

/// Input processing leaves no circulating record of the settlement
/// being written: it only inserts or updates records in destroyed
/// state.
proof fn lemma_process_inputs_no_circ(
    cur: Seq<CurrencyRecordV>,
    uk: Seq<char>,
    txid: Seq<char>,
    ins: Seq<CurrencyUnitV>,
    now: u64,
)
    requires
        forall|i: int|
            0 <= i < cur.len() ==> !((#[trigger] cur[i]).transaction_id == txid && cur[i].user_key
                == uk && cur[i].status == CurrencyStatus::Circulating),
    ensures
        process_inputs(cur, uk, txid, ins, now) matches Some(cur1) ==> forall|i: int|
            0 <= i < cur1.len() ==> !((#[trigger] cur1[i]).transaction_id == txid
                && cur1[i].user_key == uk && cur1[i].status == CurrencyStatus::Circulating),
    decreases ins.len(),
{
    if ins.len() != 0 && process_inputs(cur, uk, txid, ins, now) is Some {
        let u = ins[0];
        let f = find_currency(cur, u.id, uk);
        lemma_find_currency_props(cur, u.id, uk);
        if f < 0 {
            let cur1 = cur.push(destroyed_record(u, uk, txid, now));
            assert(forall|i: int|
                0 <= i < cur1.len() ==> !((#[trigger] cur1[i]).transaction_id == txid
                    && cur1[i].user_key == uk && cur1[i].status == CurrencyStatus::Circulating));
            lemma_process_inputs_no_circ(cur1, uk, txid, ins.drop_first(), now);
        } else if cur[f].status == CurrencyStatus::Destroyed {
        } else {
            let cur1 = cur.update(f, spent_record(cur[f], u, txid, now));
            assert(forall|i: int|
                0 <= i < cur1.len() ==> !((#[trigger] cur1[i]).transaction_id == txid
                    && cur1[i].user_key == uk && cur1[i].status == CurrencyStatus::Circulating));
            lemma_process_inputs_no_circ(cur1, uk, txid, ins.drop_first(), now);
        }
    }
}

/// Inserting the outputs adds exactly their total to the circulating
/// amount of the settlement being written.
proof fn lemma_insert_outputs_circ_total(
    cur: Seq<CurrencyRecordV>,
    uk: Seq<char>,
    txid: Seq<char>,
    outs: Seq<CurrencyUnitV>,
    now: u64,
)
    ensures
        insert_outputs(cur, uk, txid, outs, now) matches Some(cur2) ==> circulating_txid_total(
            cur2,
            txid,
            uk,
        ) == circulating_txid_total(cur, txid, uk) + sum_units(outs),
    decreases outs.len(),
{
    if outs.len() != 0 && insert_outputs(cur, uk, txid, outs, now) is Some {
        let u = outs[0];
        let r = crate::ledger::minted_record(u, uk, txid, now);
        let cur1 = cur.push(r);
        assert(cur1.drop_last() =~= cur);
        lemma_sum_units_drop_first(outs);
        lemma_insert_outputs_circ_total(cur1, uk, txid, outs.drop_first(), now);
    }
}

/// Law (amount conservation): the total recorded on a settlement's log
/// entry equals both the total over its minted outputs and the sum of
/// amounts over the circulating records that carry the settlement.
pub proof fn lemma_amount_conservation(
    l: LedgerV,
    uk: Seq<char>,
    t: TransferV,
    outs: Seq<CurrencyUnitV>,
    now: u64,
)
    requires
        l.wf(),
        sum_records(l.currencies) + sum_units(t.inputs) + sum_units(outs) <= u64::MAX,
        settle_model(l, uk, t, outs, now) is Ok,
    ensures
        ({
            let p = settle_model(l, uk, t, outs, now).unwrap();
            let e = p.0.exchanges.last();
            &&& e.transaction_id == t.id
            &&& e.user_key == uk
            &&& e.amount as int == sum_units(outs)
            &&& circulating_txid_total(p.0.currencies, t.id, uk) == e.amount as int
        }),
{
    let cur1 = process_inputs(l.currencies, uk, t.id, t.inputs, now).unwrap();
    lemma_find_exchange_props(l.exchanges, t.id, uk);
    // nothing in the store carries the fresh settlement identity yet
    assert forall|i: int| 0 <= i < l.currencies.len() implies !((
    #[trigger] l.currencies[i]).transaction_id == t.id && l.currencies[i].user_key == uk) by {
        if l.currencies[i].transaction_id == t.id && l.currencies[i].user_key == uk {
            let j = choose|j: int|
                0 <= j < l.exchanges.len() && (#[trigger] l.exchanges[j]).transaction_id
                    == l.currencies[i].transaction_id && l.exchanges[j].user_key
                    == l.currencies[i].user_key;
            assert(false);
        }
    }
    lemma_process_inputs_no_circ(l.currencies, uk, t.id, t.inputs, now);
    lemma_circ_total_zero(cur1, t.id, uk);
    lemma_insert_outputs_circ_total(cur1, uk, t.id, outs, now);
    lemma_sum_units_nonneg(outs);
    lemma_sum_units_nonneg(t.inputs);
    lemma_sum_records_nonneg(l.currencies);
}


/// The concatenation of the first `n` pages of a listing.
pub open spec fn pages_up_to<A>(s: Seq<A>, count: u64, n: u64) -> Seq<A>
    decreases n,
{
    if n == 0 {
        Seq::empty()
    } else {
        pages_up_to(s, count, (n - 1) as u64) + page_slice(s, n, count)
    }
}

/// The first `n` pages are exactly the first `n * count` items.
proof fn lemma_pages_prefix<A>(s: Seq<A>, count: u64, n: u64)
    requires
        count >= 1,
    ensures
        pages_up_to(s, count, n) == s.take(
            if n as int * count as int > s.len() as int {
                s.len() as int
            } else {
                n as int * count as int
            },
        ),
    decreases n,
{
    if n == 0 {
        assert(s.take(0) =~= Seq::<A>::empty());
    } else {
        lemma_pages_prefix(s, count, (n - 1) as u64);
        lemma_mul_is_distributive_add_other_way(count as int, n as int - 1, 1);
        let off = (n as int - 1) * count as int;
        let lo = if off > s.len() as int {
            s.len() as int
        } else {
            off
        };
        let hi = if off + count > s.len() as int {
            s.len() as int
        } else {
            off + count
        };
        assert(off >= 0) by {
            vstd::arithmetic::mul::lemma_mul_nonnegative(n as int - 1, count as int);
        }
        assert(s.take(lo) =~= s.subrange(0, lo));
        assert(s.subrange(0, lo) + s.subrange(lo, hi) =~= s.subrange(0, hi));
        assert(s.subrange(0, hi) =~= s.take(
            if n as int * count as int > s.len() as int {
                s.len() as int
            } else {
                n as int * count as int
            },
        ));
    }
}

/// Law (pagination completeness): with pages of `count` items, the
/// pages `1..=n` of a listing, concatenated in order, are exactly the
/// whole listing, as soon as `n * count` reaches its length. Applied
/// to a listing query, `s` is the sorted, filtered sequence whose
/// slices the query returns, so every match appears exactly once.
pub proof fn lemma_pagination_complete<A>(s: Seq<A>, count: u64, n: u64)
    requires
        count >= 1,
        n as int * count as int >= s.len() as int,
    ensures
        pages_up_to(s, count, n) == s,
{
    lemma_pages_prefix(s, count, n);
    assert(s.take(s.len() as int) =~= s);
}

/// Records ordered newest first.
pub open spec fn sorted_by_created_desc(s: Seq<CurrencyRecordV>) -> bool {
    forall|i: int, j: int|
        0 <= i < j < s.len() ==> (#[trigger] s[i]).create_time >= (#[trigger] s[j]).create_time
}

/// Inserting into an ordered sequence keeps it ordered and adds
/// exactly the new record.
proof fn lemma_sorted_insert_ensures(x: CurrencyRecordV, s: Seq<CurrencyRecordV>)
    requires
        sorted_by_created_desc(s),
    ensures
        sorted_by_created_desc(sorted_insert_desc(x, s)),
        sorted_insert_desc(x, s).to_multiset() == s.to_multiset().insert(x),
    decreases s.len(),
{
    broadcast use vstd::multiset::group_multiset_axioms;

    let r = sorted_insert_desc(x, s);
    s.to_multiset_ensures();
    assert(s.push(x).to_multiset() =~= s.to_multiset().insert(x));
    assert(s.push(x) =~= s + seq![x]);
    lemma_multiset_commutative(s, seq![x]);
    if s.len() == 0 {
        assert(s.push(x) =~= seq![x]);
        assert(r.to_multiset() =~= s.to_multiset().insert(x));
    } else if x.create_time > s[0].create_time {
        assert(r == seq![x] + s);
        lemma_multiset_commutative(seq![x], s);
        assert(r.to_multiset() =~= s.to_multiset().insert(x));
        assert forall|i: int, j: int| 0 <= i < j < r.len() implies (
        #[trigger] r[i]).create_time >= (#[trigger] r[j]).create_time by {
            if i == 0 {
                if j > 1 {
                    assert(s[0].create_time >= s[j - 1].create_time);
                }
            } else {
                assert(r[i] == s[i - 1] && r[j] == s[j - 1]);
            }
        }
    } else {
        let rec = sorted_insert_desc(x, s.drop_first());
        assert forall|i: int, j: int|
            0 <= i < j < s.drop_first().len() implies (
        #[trigger] s.drop_first()[i]).create_time >= (
        #[trigger] s.drop_first()[j]).create_time by {
            assert(s.drop_first()[i] == s[i + 1] && s.drop_first()[j] == s[j + 1]);
        }
        lemma_sorted_insert_ensures(x, s.drop_first());
        assert(r == seq![s[0]] + rec);
        lemma_multiset_commutative(seq![s[0]], rec);
        assert(s =~= seq![s[0]] + s.drop_first());
        lemma_multiset_commutative(seq![s[0]], s.drop_first());
        assert(r.to_multiset() =~= s.to_multiset().insert(x));
        // the head is newest: every record in the tail insertion is x
        // or comes from the tail
        rec.to_multiset_ensures();
        s.drop_first().to_multiset_ensures();
        assert forall|i: int, j: int| 0 <= i < j < r.len() implies (
        #[trigger] r[i]).create_time >= (#[trigger] r[j]).create_time by {
            if i == 0 {
                assert(r[j] == rec[j - 1]);
                assert(rec.contains(rec[j - 1]));
                assert(rec.to_multiset().count(rec[j - 1]) > 0);
                if rec[j - 1] == x {
                    assert(s[0].create_time >= x.create_time);
                } else {
                    assert(s.drop_first().to_multiset().count(rec[j - 1]) > 0);
                    assert(s.drop_first().contains(rec[j - 1]));
                    let w = choose|w: int|
                        0 <= w < s.drop_first().len() && s.drop_first()[w] == rec[j - 1];
                    assert(s[0].create_time >= s[w + 1].create_time);
                }
            } else {
                assert(r[i] == rec[i - 1] && r[j] == rec[j - 1]);
            }
        }
    }
}

/// Law (listing order): the sorted listing is ordered newest first by
/// creation time and is a permutation of the filtered records — so a
/// store without duplicate records lists each exactly once.
pub proof fn lemma_sort_desc_ensures(s: Seq<CurrencyRecordV>)
    ensures
        sorted_by_created_desc(sort_desc(s)),
        sort_desc(s).to_multiset() == s.to_multiset(),
        s.no_duplicates() ==> sort_desc(s).no_duplicates(),
    decreases s.len(),
{
    if s.len() == 0 {
        assert(sort_desc(s) =~= s);
    } else {
        lemma_sort_desc_ensures(s.drop_last());
        lemma_sorted_insert_ensures(s.last(), sort_desc(s.drop_last()));
        s.drop_last().to_multiset_ensures();
        assert(s.drop_last().push(s.last()) =~= s);
        assert(s.drop_last().push(s.last()).to_multiset() =~= s.drop_last().to_multiset().insert(
            s.last(),
        ));
        assert(sort_desc(s).to_multiset() == s.to_multiset());
    }
    if s.no_duplicates() {
        s.lemma_multiset_has_no_duplicates();
        assert(forall|x: CurrencyRecordV|
            sort_desc(s).to_multiset().contains(x) ==> sort_desc(s).to_multiset().count(x) == 1);
        sort_desc(s).lemma_multiset_has_no_duplicates_conv();
    }
}


/// A window in which the caller created nothing sums to nothing.
proof fn lemma_window_total_zero(
    s: Seq<CurrencyRecordV>,
    uk: Seq<char>,
    st: CurrencyStatus,
    b: Option<u64>,
    e: Option<u64>,
)
    requires
        forall|i: int|
            0 <= i < s.len() ==> ((#[trigger] s[i]).user_key == uk ==> !in_window(
                s[i].create_time,
                b,
                e,
            )),
    ensures
        status_window_total(s, uk, st, b, e) == 0,
    decreases s.len(),
{
    if s.len() != 0 {
        assert(forall|i: int| 0 <= i < s.drop_last().len() ==> s.drop_last()[i] == s[i]);
        lemma_window_total_zero(s.drop_last(), uk, st, b, e);
    }
}

/// A window in which the caller settled nothing counts nothing.
proof fn lemma_window_count_zero(
    s: Seq<crate::types::ExchangeRecordV>,
    uk: Seq<char>,
    b: Option<u64>,
    e: Option<u64>,
)
    requires
        forall|i: int|
            0 <= i < s.len() ==> ((#[trigger] s[i]).user_key == uk ==> !in_window(
                s[i].create_time,
                b,
                e,
            )),
    ensures
        window_exchange_count(s, uk, b, e) == 0,
    decreases s.len(),
{
    if s.len() != 0 {
        assert(forall|i: int| 0 <= i < s.drop_last().len() ==> s.drop_last()[i] == s[i]);
        lemma_window_count_zero(s.drop_last(), uk, b, e);
    }
}

/// A unit absent from the store is still absent after an unrelated
/// record is appended.
proof fn lemma_find_absent_push(
    cur: Seq<CurrencyRecordV>,
    r: CurrencyRecordV,
    id: Seq<char>,
    uk: Seq<char>,
)
    requires
        find_currency(cur, id, uk) == -1,
        r.currency_id != id,
    ensures
        find_currency(cur.push(r), id, uk) == -1,
{
    lemma_find_currency_props(cur, id, uk);
    lemma_find_currency_props(cur.push(r), id, uk);
    let f = find_currency(cur.push(r), id, uk);
    if f != -1 {
        if f == cur.len() {
            assert(cur.push(r)[f] == r);
        } else {
            assert(cur.push(r)[f] == cur[f]);
        }
        assert(false);
    }
}

/// Spending inputs that were never locally recorded inserts them
/// destroyed at settlement time: within any window containing that
/// time, the destroyed total grows by exactly the inputs' total and
/// the circulating total is untouched.
proof fn lemma_process_inputs_window(
    cur: Seq<CurrencyRecordV>,
    uk: Seq<char>,
    txid: Seq<char>,
    ins: Seq<CurrencyUnitV>,
    now: u64,
    b: Option<u64>,
    e: Option<u64>,
)
    requires
        in_window(now, b, e),
        forall|k: int|
            0 <= k < ins.len() ==> find_currency(cur, (#[trigger] ins[k]).id, uk) == -1,
        forall|k1: int, k2: int|
            0 <= k1 < k2 < ins.len() ==> (#[trigger] ins[k1]).id != (#[trigger] ins[k2]).id,
    ensures
        process_inputs(cur, uk, txid, ins, now) matches Some(cur1) ==> {
            &&& status_window_total(cur1, uk, CurrencyStatus::Circulating, b, e)
                == status_window_total(cur, uk, CurrencyStatus::Circulating, b, e)
            &&& status_window_total(cur1, uk, CurrencyStatus::Destroyed, b, e)
                == status_window_total(cur, uk, CurrencyStatus::Destroyed, b, e) + sum_units(ins)
        },
    decreases ins.len(),
{
    if ins.len() != 0 && process_inputs(cur, uk, txid, ins, now) is Some {
        let u = ins[0];
        assert(find_currency(cur, u.id, uk) == -1);
        let r = destroyed_record(u, uk, txid, now);
        let curp = cur.push(r);
        assert(curp.drop_last() =~= cur);
        assert forall|k: int| 0 <= k < ins.drop_first().len() implies find_currency(
            curp,
            (#[trigger] ins.drop_first()[k]).id,
            uk,
        ) == -1 by {
            assert(ins.drop_first()[k] == ins[k + 1]);
            lemma_find_absent_push(cur, r, ins[k + 1].id, uk);
        }
        assert(forall|k1: int, k2: int|
            0 <= k1 < k2 < ins.drop_first().len() ==> (#[trigger] ins.drop_first()[k1]).id != (
            #[trigger] ins.drop_first()[k2]).id);
        lemma_process_inputs_window(curp, uk, txid, ins.drop_first(), now, b, e);
        lemma_sum_units_drop_first(ins);
    }
}

/// Minting the outputs records them circulating at settlement time:
/// within any window containing that time, the circulating total grows
/// by exactly the outputs' total and the destroyed total is untouched.
proof fn lemma_insert_outputs_window(
    cur: Seq<CurrencyRecordV>,
    uk: Seq<char>,
    txid: Seq<char>,
    outs: Seq<CurrencyUnitV>,
    now: u64,
    b: Option<u64>,
    e: Option<u64>,
)
    requires
        in_window(now, b, e),
    ensures
        insert_outputs(cur, uk, txid, outs, now) matches Some(cur2) ==> {
            &&& status_window_total(cur2, uk, CurrencyStatus::Circulating, b, e)
                == status_window_total(cur, uk, CurrencyStatus::Circulating, b, e) + sum_units(
                outs,
            )
            &&& status_window_total(cur2, uk, CurrencyStatus::Destroyed, b, e)
                == status_window_total(cur, uk, CurrencyStatus::Destroyed, b, e)
        },
    decreases outs.len(),
{
    if outs.len() != 0 && insert_outputs(cur, uk, txid, outs, now) is Some {
        let u = outs[0];
        let r = crate::ledger::minted_record(u, uk, txid, now);
        let curp = cur.push(r);
        assert(curp.drop_last() =~= cur);
        lemma_insert_outputs_window(curp, uk, txid, outs.drop_first(), now, b, e);
        lemma_sum_units_drop_first(outs);
    }
}

/// Law (statistics windowing): take a successful settlement whose
/// input units were not locally recorded before (they are first seen
/// as spent) and carry distinct identities, and a window that contains
/// the settlement time but no earlier record or log entry of the
/// caller. The statistics of that window then report exactly one
/// settlement, a circulating total equal to the settlement's output
/// total, and a destroyed total equal to its input total.
///
/// An input that was already recorded before the settlement keeps its
/// original creation time, which lies outside the window, so the law
/// is stated for first-seen inputs only.
pub proof fn lemma_statistics_window(
    l: LedgerV,
    uk: Seq<char>,
    t: TransferV,
    outs: Seq<CurrencyUnitV>,
    now: u64,
    b: Option<u64>,
    e: Option<u64>,
)
    requires
        settle_model(l, uk, t, outs, now) is Ok,
        in_window(now, b, e),
        forall|k: int|
            0 <= k < t.inputs.len() ==> find_currency(l.currencies, (#[trigger] t.inputs[k]).id, uk)
                == -1,
        forall|k1: int, k2: int|
            0 <= k1 < k2 < t.inputs.len() ==> (#[trigger] t.inputs[k1]).id != (
            #[trigger] t.inputs[k2]).id,
        forall|i: int|
            0 <= i < l.currencies.len() ==> ((#[trigger] l.currencies[i]).user_key == uk
                ==> !in_window(l.currencies[i].create_time, b, e)),
        forall|j: int|
            0 <= j < l.exchanges.len() ==> ((#[trigger] l.exchanges[j]).user_key == uk
                ==> !in_window(l.exchanges[j].create_time, b, e)),
    ensures
        ({
            let p = settle_model(l, uk, t, outs, now).unwrap();
            &&& status_window_total(p.0.currencies, uk, CurrencyStatus::Circulating, b, e)
                == sum_units(outs)
            &&& status_window_total(p.0.currencies, uk, CurrencyStatus::Destroyed, b, e)
                == sum_units(t.inputs)
            &&& window_exchange_count(p.0.exchanges, uk, b, e) == 1
        }),
{
    let cur1 = process_inputs(l.currencies, uk, t.id, t.inputs, now).unwrap();
    lemma_window_total_zero(l.currencies, uk, CurrencyStatus::Circulating, b, e);
    lemma_window_total_zero(l.currencies, uk, CurrencyStatus::Destroyed, b, e);
    lemma_process_inputs_window(l.currencies, uk, t.id, t.inputs, now, b, e);
    lemma_insert_outputs_window(cur1, uk, t.id, outs, now, b, e);
    lemma_window_count_zero(l.exchanges, uk, b, e);
    let p = settle_model(l, uk, t, outs, now).unwrap();
    assert(p.0.exchanges.drop_last() =~= l.exchanges);
}


/// Log entries ordered newest first.
pub open spec fn sorted_by_settled_desc(s: Seq<ExchangeRecordV>) -> bool {
    forall|i: int, j: int|
        0 <= i < j < s.len() ==> (#[trigger] s[i]).create_time >= (#[trigger] s[j]).create_time
}

/// Inserting into an ordered log keeps it ordered and adds exactly the
/// new entry.
proof fn lemma_sorted_insert_ensures_ex(x: ExchangeRecordV, s: Seq<ExchangeRecordV>)
    requires
        sorted_by_settled_desc(s),
    ensures
        sorted_by_settled_desc(sorted_insert_desc_ex(x, s)),
        sorted_insert_desc_ex(x, s).to_multiset() == s.to_multiset().insert(x),
    decreases s.len(),
{
    broadcast use vstd::multiset::group_multiset_axioms;

    let r = sorted_insert_desc_ex(x, s);
    s.to_multiset_ensures();
    assert(s.push(x).to_multiset() =~= s.to_multiset().insert(x));
    assert(s.push(x) =~= s + seq![x]);
    lemma_multiset_commutative(s, seq![x]);
    if s.len() == 0 {
        assert(s.push(x) =~= seq![x]);
        assert(r.to_multiset() =~= s.to_multiset().insert(x));
    } else if x.create_time > s[0].create_time {
        assert(r == seq![x] + s);
        lemma_multiset_commutative(seq![x], s);
        assert(r.to_multiset() =~= s.to_multiset().insert(x));
        assert forall|i: int, j: int| 0 <= i < j < r.len() implies (
        #[trigger] r[i]).create_time >= (#[trigger] r[j]).create_time by {
            if i == 0 {
                if j > 1 {
                    assert(s[0].create_time >= s[j - 1].create_time);
                }
            } else {
                assert(r[i] == s[i - 1] && r[j] == s[j - 1]);
            }
        }
    } else {
        let rec = sorted_insert_desc_ex(x, s.drop_first());
        assert forall|i: int, j: int|
            0 <= i < j < s.drop_first().len() implies (
        #[trigger] s.drop_first()[i]).create_time >= (
        #[trigger] s.drop_first()[j]).create_time by {
            assert(s.drop_first()[i] == s[i + 1] && s.drop_first()[j] == s[j + 1]);
        }
        lemma_sorted_insert_ensures_ex(x, s.drop_first());
        assert(r == seq![s[0]] + rec);
        lemma_multiset_commutative(seq![s[0]], rec);
        assert(s =~= seq![s[0]] + s.drop_first());
        lemma_multiset_commutative(seq![s[0]], s.drop_first());
        assert(r.to_multiset() =~= s.to_multiset().insert(x));
        rec.to_multiset_ensures();
        s.drop_first().to_multiset_ensures();
        assert forall|i: int, j: int| 0 <= i < j < r.len() implies (
        #[trigger] r[i]).create_time >= (#[trigger] r[j]).create_time by {
            if i == 0 {
                assert(r[j] == rec[j - 1]);
                assert(rec.contains(rec[j - 1]));
                assert(rec.to_multiset().count(rec[j - 1]) > 0);
                if rec[j - 1] == x {
                    assert(s[0].create_time >= x.create_time);
                } else {
                    assert(s.drop_first().to_multiset().count(rec[j - 1]) > 0);
                    assert(s.drop_first().contains(rec[j - 1]));
                    let w = choose|w: int|
                        0 <= w < s.drop_first().len() && s.drop_first()[w] == rec[j - 1];
                    assert(s[0].create_time >= s[w + 1].create_time);
                }
            } else {
                assert(r[i] == rec[i - 1] && r[j] == rec[j - 1]);
            }
        }
    }
}

/// Law (listing order): the sorted transaction listing is ordered
/// newest first by settlement time and is a permutation of the
/// filtered log entries.
pub proof fn lemma_sort_desc_ex_ensures(s: Seq<ExchangeRecordV>)
    ensures
        sorted_by_settled_desc(sort_desc_ex(s)),
        sort_desc_ex(s).to_multiset() == s.to_multiset(),
        s.no_duplicates() ==> sort_desc_ex(s).no_duplicates(),
    decreases s.len(),
{
    if s.len() == 0 {
        assert(sort_desc_ex(s) =~= s);
    } else {
        lemma_sort_desc_ex_ensures(s.drop_last());
        lemma_sorted_insert_ensures_ex(s.last(), sort_desc_ex(s.drop_last()));
        s.drop_last().to_multiset_ensures();
        assert(s.drop_last().push(s.last()) =~= s);
        assert(s.drop_last().push(s.last()).to_multiset() =~= s.drop_last().to_multiset().insert(
            s.last(),
        ));
        assert(sort_desc_ex(s).to_multiset() == s.to_multiset());
    }
    if s.no_duplicates() {
        s.lemma_multiset_has_no_duplicates();
        assert(forall|x: ExchangeRecordV|
            sort_desc_ex(s).to_multiset().contains(x) ==> sort_desc_ex(s).to_multiset().count(x)
                == 1);
        sort_desc_ex(s).lemma_multiset_has_no_duplicates_conv();
    }
}

/// Law (pagination of the currency listing): the pages `1..=n` that
/// `get_currency_list` returns, concatenated in order, are exactly the
/// sorted sequence of every matching record, ordered newest first,
/// once `n * count` reaches the match count.
pub proof fn lemma_currency_listing_pages(
    cur: Seq<CurrencyRecordV>,
    uk: Seq<char>,
    f: CurrencyFilterV,
    count: u64,
    n: u64,
)
    requires
        count >= 1,
        n as int * count as int >= filtered_currencies(cur, uk, f).len(),
    ensures
        ({
            let listing = sort_desc(filtered_currencies(cur, uk, f));
            &&& pages_up_to(listing, count, n) == listing
            &&& sorted_by_created_desc(listing)
            &&& listing.to_multiset() == filtered_currencies(cur, uk, f).to_multiset()
        }),
{
    lemma_sort_desc_ensures(filtered_currencies(cur, uk, f));
    crate::query::lemma_sort_desc_len(filtered_currencies(cur, uk, f));
    lemma_pagination_complete(sort_desc(filtered_currencies(cur, uk, f)), count, n);
}

/// Law (pagination of the transaction listing): the pages `1..=n` that
/// `get_transaction_list` returns, concatenated in order, are exactly
/// the sorted sequence of every matching log entry, ordered newest
/// first, once `n * count` reaches the match count.
pub proof fn lemma_transaction_listing_pages(
    exs: Seq<ExchangeRecordV>,
    uk: Seq<char>,
    f: TransactionFilterV,
    count: u64,
    n: u64,
)
    requires
        count >= 1,
        n as int * count as int >= filtered_exchanges(exs, uk, f).len(),
    ensures
        ({
            let listing = sort_desc_ex(filtered_exchanges(exs, uk, f));
            &&& pages_up_to(listing, count, n) == listing
            &&& sorted_by_settled_desc(listing)
            &&& listing.to_multiset() == filtered_exchanges(exs, uk, f).to_multiset()
        }),
{
    lemma_sort_desc_ex_ensures(filtered_exchanges(exs, uk, f));
    crate::query::lemma_sort_desc_len_ex(filtered_exchanges(exs, uk, f));
    lemma_pagination_complete(sort_desc_ex(filtered_exchanges(exs, uk, f)), count, n);
}

} // verus!
